use vstd::prelude::*;
use vstd::string::*;

use crate::error::{FFError, Severity};

verus! {

/// How a client proves who it is.
#[derive(Debug, Clone, Copy, PartialEq, Eq, Structural)]
pub enum LoginType {
    /// A user name and a plaintext password.
    Password,
    /// A user name and a cookie handed out by the web front end.
    Cookie,
}

/// The error code a failed login reports to the client.
#[derive(Debug, Clone, Copy, PartialEq, Eq, Structural)]
pub enum LoginError {
    LoginError,
    UsernameNotFound,
    IncorrectPassword,
    AlreadyLoggedIn,
}

/// A character allowed in user names.
pub open spec fn is_username_char(c: char) -> bool {
    ('a' <= c && c <= 'z') || ('A' <= c && c <= 'Z') || ('0' <= c && c <= '9') || c == '_' || c == '-'
}

/// A character allowed in passwords.
pub open spec fn is_password_char(c: char) -> bool {
    ||| ('a' <= c && c <= 'z') || ('A' <= c && c <= 'Z') || ('0' <= c && c <= '9')
    ||| c == '!' || c == '@' || c == '#' || c == '$' || c == '%' || c == '^'
    ||| c == '&' || c == '*' || c == '(' || c == ')' || c == '_' || c == '+'
}

/// An acceptable user name: 4 to 32 characters, each a user-name character.
pub open spec fn valid_username(s: Seq<char>) -> bool {
    4 <= s.len() <= 32 && forall|j: int| 0 <= j < s.len() ==> is_username_char(#[trigger] s[j])
}

/// An acceptable password: 8 to 32 characters, each a password character.
pub open spec fn valid_password(s: Seq<char>) -> bool {
    8 <= s.len() <= 32 && forall|j: int| 0 <= j < s.len() ==> is_password_char(#[trigger] s[j])
}

/// The pattern a whole user name must match.
pub open spec fn username_pattern() -> Seq<char> {
    "^[a-zA-Z0-9_-]{4,32}$"@
}

/// The pattern a whole password must match.
pub open spec fn password_pattern() -> Seq<char> {
    "^[a-zA-Z0-9!@#$%^&*()_+]{8,32}$"@
}

/// A character with the Unicode White_Space property.
pub open spec fn is_white_space(c: char) -> bool {
    ||| ('\u{9}' <= c && c <= '\u{d}') || c == ' ' || c == '\u{85}' || c == '\u{a0}' || c == '\u{1680}'
    ||| ('\u{2000}' <= c && c <= '\u{200a}') || c == '\u{2028}' || c == '\u{2029}'
    ||| c == '\u{202f}' || c == '\u{205f}' || c == '\u{3000}'
}

/// `s` without the white space it starts with.
pub open spec fn trim_start_ws(s: Seq<char>) -> Seq<char>
    decreases s.len(),
{
    if s.len() > 0 && is_white_space(s[0]) {
        trim_start_ws(s.drop_first())
    } else {
        s
    }
}

/// `s` without the white space it ends with.
pub open spec fn trim_end_ws(s: Seq<char>) -> Seq<char>
    decreases s.len(),
{
    if s.len() > 0 && is_white_space(s.last()) {
        trim_end_ws(s.drop_last())
    } else {
        s
    }
}

/// `s` without leading and trailing white space.
pub open spec fn trimmed(s: Seq<char>) -> Seq<char> {
    trim_end_ws(trim_start_ws(s))
}

/// What `str::to_lowercase` gives for `s`.
pub uninterp spec fn lowercase(s: Seq<char>) -> Seq<char>;

/// Whether `haystack` matches `pattern`, by `regex::Regex`: the pattern is
/// compiled with `Regex::new` (it is one of the two valid patterns above)
/// and tested with `Regex::is_match`. Both patterns are anchored at the start
/// (`^`) and the end (`$`) of the text, so the whole text must be 4 to 32
/// user-name characters, or 8 to 32 password characters.
#[verifier::external_body]
fn pattern_is_match(pattern: &str, haystack: &str) -> (b: bool)
    requires
        pattern@ == username_pattern() || pattern@ == password_pattern(),
    ensures
        pattern@ == username_pattern() ==> b == valid_username(haystack@),
        pattern@ == password_pattern() ==> b == valid_password(haystack@),
{
    regex::Regex::new(pattern).unwrap().is_match(haystack)
}

/// `s` without leading and trailing white space, by `str::trim`.
#[verifier::external_body]
fn trim_text(s: &str) -> (r: &str)
    ensures
        r@ == trimmed(s@),
{
    s.trim()
}

/// `s` in lower case, by `str::to_lowercase`.
#[verifier::external_body]
fn to_lowercase_text(s: &str) -> (r: String)
    ensures
        r@ == lowercase(s@),
{
    s.to_lowercase()
}

/// The user name a login looks up: the name as sent, trimmed and in lower
/// case.
pub fn normalize_username(raw: &str) -> (r: String)
    ensures
        r@ == lowercase(trimmed(raw@)),
{
    to_lowercase_text(trim_text(raw))
}

/// How the checks of a login request before the account lookup end.
#[derive(Debug)]
pub enum LoginCheck {
    /// Password logins are disabled: the client is told so and the request
    /// ends without an error.
    PlaintextDisabled,
    /// The user name is unacceptable: the client is told so and the request
    /// ends without an error.
    BadUsername,
    /// The password is unacceptable: the client is told so and the request
    /// fails with `bad_password_error`.
    BadPassword,
    /// The account of `username` is looked up, to be checked with `token`.
    Proceed { username: String, token: String },
}

/// Checks a login request of type `login_type` for the (normalized) user name
/// `username` with the password or cookie `secret`: password logins must be
/// allowed; the user name must be 4 to 32 user-name characters; a password
/// must be 8 to 32 password characters, as the announcements say. The token
/// checked later is `secret` trimmed.
pub fn check_login_request(
    login_type: LoginType,
    allow_plaintext_passwords: bool,
    username: String,
    secret: &str,
) -> (r: LoginCheck)
    ensures
        login_type == LoginType::Password && !allow_plaintext_passwords ==> r is PlaintextDisabled,
        !(login_type == LoginType::Password && !allow_plaintext_passwords) ==> {
            if !valid_username(username@) {
                r is BadUsername
            } else if login_type == LoginType::Password && !valid_password(secret@) {
                r is BadPassword
            } else {
                r matches LoginCheck::Proceed { username: u, token: t } && u@ == username@ && t@
                    == trimmed(secret@)
            }
        },
        r is Proceed <==> valid_username(username@) && (login_type == LoginType::Password ==> allow_plaintext_passwords
            && valid_password(secret@)),
        r is BadPassword ==> login_type == LoginType::Password && !valid_password(secret@),
        r is BadUsername ==> !valid_username(username@),
{
    if login_type == LoginType::Password && !allow_plaintext_passwords {
        return LoginCheck::PlaintextDisabled;
    }
    if !pattern_is_match("^[a-zA-Z0-9_-]{4,32}$", username.as_str()) {
        return LoginCheck::BadUsername;
    }
    if login_type == LoginType::Password && !pattern_is_match("^[a-zA-Z0-9!@#$%^&*()_+]{8,32}$", secret) {
        return LoginCheck::BadPassword;
    }
    let token = String::from_str(trim_text(secret));
    LoginCheck::Proceed { username, token }
}

/// Normalizes the user name of a login request, then checks the request as
/// `check_login_request` does.
pub fn login_request(
    login_type: LoginType,
    allow_plaintext_passwords: bool,
    raw_username: &str,
    secret: &str,
) -> (r: LoginCheck)
    ensures
        login_type == LoginType::Password && !allow_plaintext_passwords ==> r is PlaintextDisabled,
        !(login_type == LoginType::Password && !allow_plaintext_passwords) ==> {
            let username = lowercase(trimmed(raw_username@));
            if !valid_username(username) {
                r is BadUsername
            } else if login_type == LoginType::Password && !valid_password(secret@) {
                r is BadPassword
            } else {
                r matches LoginCheck::Proceed { username: u, token: t } && u@ == username && t@
                    == trimmed(secret@)
            }
        },
        r is Proceed <==> valid_username(lowercase(trimmed(raw_username@))) && (login_type == LoginType::Password
            ==> allow_plaintext_passwords && valid_password(secret@)),
        r is BadPassword ==> login_type == LoginType::Password && !valid_password(secret@),
        r is BadUsername ==> !valid_username(lowercase(trimmed(raw_username@))),
{
    let username = normalize_username(raw_username);
    check_login_request(login_type, allow_plaintext_passwords, username, secret)
}

/// The announcement shown when password logins are disabled.
pub fn plaintext_disabled_msg() -> (m: &'static str)
    ensures
        m@ == "Password login disabled\nThis server has disabled logging in with plaintext passwords.\nPlease contact an admin for assistance."@,
{
    "Password login disabled\nThis server has disabled logging in with plaintext passwords.\nPlease contact an admin for assistance."
}

/// The announcement shown for an unacceptable user name.
pub fn bad_username_msg() -> (m: &'static str)
    ensures
        m@ == "Invalid username\nUsername must be 4-32 characters long and contain only letters, numbers, underscores, or hyphens."@,
{
    "Invalid username\nUsername must be 4-32 characters long and contain only letters, numbers, underscores, or hyphens."
}

/// The announcement shown for an unacceptable password.
pub fn bad_password_msg() -> (m: &'static str)
    ensures
        m@ == "Invalid password\nPassword must be 8-32 characters long and contain only letters, numbers, or special characters !@#$%^&*()_+."@,
{
    "Invalid password\nPassword must be 8-32 characters long and contain only letters, numbers, or special characters !@#$%^&*()_+."
}

/// The error a login with an unacceptable password ends with.
pub fn bad_password_error() -> (e: FFError)
    ensures
        e.severity() == Severity::Warning,
        e.msg() == "Password did not match regex"@,
        e.parent() is None,
{
    FFError::build(Severity::Warning, String::from_str("Password did not match regex"))
}

/// The announcement for an account banned until `banned_until` (seconds),
/// at time `now`: none when the ban has run out; else the time left, as
/// `duration_text` spells it, and the reason. A banned account does not log
/// in.
pub fn ban_announcement(banned_until: u64, now: u64, duration_text: &str, reason: &str) -> (m: Option<String>)
    ensures
        m is None <==> banned_until <= now,
        m matches Some(t) ==> t@ == "You are banned for "@ + duration_text@ + ".\nReason: "@ + reason@,
{
    if banned_until <= now {
        return None;
    }
    let mut t = String::from_str("You are banned for ");
    t.append(duration_text);
    t.append(".\nReason: ");
    t.append(reason);
    Some(t)
}

/// What follows the lookup of an account.
#[derive(Debug, Clone, Copy, PartialEq, Eq, Structural)]
pub enum AccountStep {
    /// Use the account found.
    UseFound,
    /// Create an account with the name and password given.
    Create,
    /// Fail: there is no such account.
    NotFound,
}

/// An account that was `found` is used; a missing one is created for a
/// password login when accounts are created automatically, and is an error
/// otherwise.
pub fn account_step(found: bool, auto_create_accounts: bool, login_type: LoginType) -> (s: AccountStep)
    ensures
        s == if found {
            AccountStep::UseFound
        } else if auto_create_accounts && login_type == LoginType::Password {
            AccountStep::Create
        } else {
            AccountStep::NotFound
        },
        s == AccountStep::UseFound <==> found,
        s == AccountStep::Create <==> !found && auto_create_accounts && login_type == LoginType::Password,
        login_type == LoginType::Cookie ==> s != AccountStep::Create,
{
    if found {
        AccountStep::UseFound
    } else if auto_create_accounts && login_type == LoginType::Password {
        AccountStep::Create
    } else {
        AccountStep::NotFound
    }
}

/// Why a login of a known user name fails.
#[derive(Debug, Clone, Copy, PartialEq, Eq, Structural)]
pub enum LoginFailure {
    /// No account has the name.
    NoAccount,
    /// The password does not match the account's.
    WrongPassword,
    /// The account has no cookie, or it has expired, or it differs.
    BadCookie,
    /// The account, or one of its players, is already logged in.
    AlreadyLoggedIn,
}

/// Whether the credentials of a login hold: for a password login, whether
/// the password matched; for a cookie login, whether the account has a
/// cookie (`cookie` is `None` when not) that has not expired and matches.
pub fn credentials_failure(login_type: LoginType, password_matches: bool, cookie: Option<(bool, bool)>) -> (f: Option<LoginFailure>)
    ensures
        f == match login_type {
            LoginType::Password => if password_matches {
                None
            } else {
                Some(LoginFailure::WrongPassword)
            },
            LoginType::Cookie => match cookie {
                Some((expired, matches)) => if !expired && matches {
                    None
                } else {
                    Some(LoginFailure::BadCookie)
                },
                None => Some(LoginFailure::BadCookie),
            },
        },
        f is None <==> (login_type == LoginType::Password && password_matches) || (login_type == LoginType::Cookie
            && cookie == Some((false, true))),
        f is Some ==> f == Some(
            if login_type == LoginType::Password {
                LoginFailure::WrongPassword
            } else {
                LoginFailure::BadCookie
            },
        ),
{
    match login_type {
        LoginType::Password => if password_matches {
            None
        } else {
            Some(LoginFailure::WrongPassword)
        },
        LoginType::Cookie => match cookie {
            Some((expired, matches)) => if !expired && matches {
                None
            } else {
                Some(LoginFailure::BadCookie)
            },
            None => Some(LoginFailure::BadCookie),
        },
    }
}

/// The error code sent to the client for `failure`.
pub open spec fn failure_code(failure: LoginFailure) -> LoginError {
    match failure {
        LoginFailure::NoAccount => LoginError::UsernameNotFound,
        LoginFailure::WrongPassword => LoginError::IncorrectPassword,
        LoginFailure::BadCookie => LoginError::IncorrectPassword,
        LoginFailure::AlreadyLoggedIn => LoginError::AlreadyLoggedIn,
    }
}

/// The logged error for `failure` of the login of `username`.
pub open spec fn failure_text(failure: LoginFailure, username: Seq<char>) -> (Severity, Seq<char>) {
    match failure {
        LoginFailure::NoAccount => (Severity::Warning, "Couldn't find account "@ + username),
        LoginFailure::WrongPassword => (Severity::Debug, "Incorrect password for account "@ + username),
        LoginFailure::BadCookie => (Severity::Debug, "Invalid or expired cookie for account "@ + username),
        LoginFailure::AlreadyLoggedIn => (Severity::Debug, "Account "@ + username + " already logged in"@),
    }
}

/// The error code and the error that a login of `username` failing with
/// `failure` reports.
pub fn login_failure(failure: LoginFailure, username: &str) -> (r: (LoginError, FFError))
    ensures
        r.0 == failure_code(failure),
        r.1.severity() == failure_text(failure, username@).0,
        r.1.msg() == failure_text(failure, username@).1,
        r.1.parent() is None,
{
    match failure {
        LoginFailure::NoAccount => {
            let mut m = String::from_str("Couldn't find account ");
            m.append(username);
            (LoginError::UsernameNotFound, FFError::build(Severity::Warning, m))
        },
        LoginFailure::WrongPassword => {
            let mut m = String::from_str("Incorrect password for account ");
            m.append(username);
            (LoginError::IncorrectPassword, FFError::build(Severity::Debug, m))
        },
        LoginFailure::BadCookie => {
            let mut m = String::from_str("Invalid or expired cookie for account ");
            m.append(username);
            (LoginError::IncorrectPassword, FFError::build(Severity::Debug, m))
        },
        LoginFailure::AlreadyLoggedIn => {
            let mut m = String::from_str("Account ");
            m.append(username);
            m.append(" already logged in");
            (LoginError::AlreadyLoggedIn, FFError::build(Severity::Debug, m))
        },
    }
}

} // verus!
