use rusty_fusion::error::Severity;
use rusty_fusion::login::{
    account_step, bad_password_error, bad_password_msg, bad_username_msg, check_login_request,
    credentials_failure, login_failure, login_request, normalize_username, plaintext_disabled_msg,
    AccountStep, LoginCheck, LoginError, LoginFailure, LoginType,
};

fn proceed(c: LoginCheck) -> (String, String) {
    match c {
        LoginCheck::Proceed { username, token } => (username, token),
        other => panic!("expected to proceed, got {:?}", other),
    }
}

#[test]
fn user_names_are_trimmed_and_lowered() {
    assert_eq!(normalize_username("  Alice_01 \t"), "alice_01");
    assert_eq!(normalize_username("BOB"), "bob");
}

#[test]
fn password_logins_can_be_disabled() {
    let c = login_request(LoginType::Password, false, "alice", "password123");
    assert!(matches!(c, LoginCheck::PlaintextDisabled));
    let (u, t) = proceed(login_request(LoginType::Cookie, false, "alice", " cookie "));
    assert_eq!(u, "alice");
    assert_eq!(t, "cookie");
}

#[test]
fn user_name_must_be_4_to_32_allowed_characters() {
    assert!(matches!(login_request(LoginType::Password, true, "abc", "password123"), LoginCheck::BadUsername));
    assert!(matches!(login_request(LoginType::Password, true, "a b c d", "password123"), LoginCheck::BadUsername));
    assert!(matches!(login_request(LoginType::Cookie, true, "ab!cd", "x"), LoginCheck::BadUsername));
    assert!(matches!(login_request(LoginType::Password, true, " Xx-Ab!! ", "password123"), LoginCheck::BadUsername));
    assert!(matches!(login_request(LoginType::Password, true, "abcd!", "password123"), LoginCheck::BadUsername));
    assert!(matches!(login_request(LoginType::Password, true, &"a".repeat(33), "password123"), LoginCheck::BadUsername));
    let (u, _) = proceed(login_request(LoginType::Password, true, &"a".repeat(32), "password123"));
    assert_eq!(u, "a".repeat(32));
    let (u, _) = proceed(login_request(LoginType::Password, true, " Xx-Ab_9 ", "password123"));
    assert_eq!(u, "xx-ab_9");
}

#[test]
fn password_must_be_8_to_32_allowed_characters() {
    assert!(matches!(login_request(LoginType::Password, true, "alice", "short"), LoginCheck::BadPassword));
    assert!(matches!(login_request(LoginType::Password, true, "alice", "pass word 12"), LoginCheck::BadPassword));
    assert!(matches!(login_request(LoginType::Password, true, "alice", "  pa$$w0rd!  "), LoginCheck::BadPassword));
    let (_, t) = proceed(login_request(LoginType::Password, true, "alice", "pa$$w0rd!"));
    assert_eq!(t, "pa$$w0rd!");
    assert!(matches!(
        check_login_request(LoginType::Password, true, "alice".to_string(), "\u{00e9}12345678"),
        LoginCheck::BadPassword
    ));
    assert!(matches!(login_request(LoginType::Password, true, "alice", &"x".repeat(33)), LoginCheck::BadPassword));
}

#[test]
fn announcements() {
    assert!(plaintext_disabled_msg().starts_with("Password login disabled\n"));
    assert!(bad_username_msg().starts_with("Invalid username\n"));
    assert!(bad_password_msg().ends_with("!@#$%^&*()_+."));
    let e = bad_password_error();
    assert_eq!(e.get_msg(), "Password did not match regex");
    assert!(matches!(e.get_severity(), Severity::Warning));
}

#[test]
fn missing_accounts() {
    assert_eq!(account_step(true, false, LoginType::Cookie), AccountStep::UseFound);
    assert_eq!(account_step(false, true, LoginType::Password), AccountStep::Create);
    assert_eq!(account_step(false, true, LoginType::Cookie), AccountStep::NotFound);
    assert_eq!(account_step(false, false, LoginType::Password), AccountStep::NotFound);
}

#[test]
fn credentials() {
    assert_eq!(credentials_failure(LoginType::Password, true, None), None);
    assert_eq!(credentials_failure(LoginType::Password, false, Some((false, true))), Some(LoginFailure::WrongPassword));
    assert_eq!(credentials_failure(LoginType::Cookie, false, Some((false, true))), None);
    assert_eq!(credentials_failure(LoginType::Cookie, true, Some((true, true))), Some(LoginFailure::BadCookie));
    assert_eq!(credentials_failure(LoginType::Cookie, true, Some((false, false))), Some(LoginFailure::BadCookie));
    assert_eq!(credentials_failure(LoginType::Cookie, true, None), Some(LoginFailure::BadCookie));
}

#[test]
fn failure_reports() {
    let (code, e) = login_failure(LoginFailure::NoAccount, "alice");
    assert_eq!(code, LoginError::UsernameNotFound);
    assert_eq!(e.get_msg(), "Couldn't find account alice");
    assert!(matches!(e.get_severity(), Severity::Warning));
    let (code, e) = login_failure(LoginFailure::BadCookie, "bob");
    assert_eq!(code, LoginError::IncorrectPassword);
    assert_eq!(e.get_msg(), "Invalid or expired cookie for account bob");
    assert!(matches!(e.get_severity(), Severity::Debug));
    let (code, e) = login_failure(LoginFailure::WrongPassword, "bob");
    assert_eq!(code, LoginError::IncorrectPassword);
    assert_eq!(e.get_msg(), "Incorrect password for account bob");
    let (code, e) = login_failure(LoginFailure::AlreadyLoggedIn, "carol");
    assert_eq!(code, LoginError::AlreadyLoggedIn);
    assert_eq!(e.get_msg(), "Account carol already logged in");
}
