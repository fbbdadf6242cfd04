use rusty_fusion::database::test_suite::build_config;
use rusty_fusion::database::{connection_lost_error, format_db_conn_error, DbCall, DbCallStep};
use rusty_fusion::error::{FFError, Severity};

#[test]
fn unreachable_server_gives_a_short_warning() {
    let cause = FFError::build(
        Severity::Fatal,
        "Error occurred while creating a new object: error connecting to server".to_string(),
    );
    let parent = FFError::build(Severity::Fatal, "pool".to_string()).with_parent(cause);
    let e = format_db_conn_error(parent);
    assert!(matches!(e.get_severity(), Severity::Warning));
    assert_eq!(e.get_msg(), "Failed to connect to database");
    assert!(e.get_parent().is_none());
}

#[test]
fn other_connection_errors_keep_their_cause() {
    let cause = FFError::build(Severity::Fatal, "password authentication failed".to_string());
    let parent = FFError::build(Severity::Fatal, "pool".to_string()).with_parent(cause);
    let e = format_db_conn_error(parent);
    assert!(matches!(e.get_severity(), Severity::Warning));
    assert_eq!(e.get_msg(), "Unexpected error while connecting to database");
    assert_eq!(e.get_parent().unwrap().get_msg(), "pool");
    let lone = format_db_conn_error(FFError::build(Severity::Info, "x".to_string()));
    assert_eq!(lone.get_msg(), "Unexpected error while connecting to database");
}

#[test]
fn healthy_connection_retries_with_doubling_waits() {
    let mut call = DbCall::start(false);
    assert_eq!(call.max_tries(), 5);
    assert_eq!(call.step(false), DbCallStep::Retry(250));
    assert_eq!(call.step(false), DbCallStep::Retry(500));
    assert_eq!(call.step(false), DbCallStep::Retry(1000));
    assert_eq!(call.step(false), DbCallStep::Retry(2000));
    assert_eq!(call.attempt_number(), 5);
    assert_eq!(call.step(false), DbCallStep::Fail { connection_lost: true });
}

#[test]
fn lost_connection_gets_one_attempt() {
    let mut call = DbCall::start(true);
    assert_eq!(call.max_tries(), 1);
    assert_eq!(call.step(false), DbCallStep::Fail { connection_lost: false });
    let mut call = DbCall::start(true);
    assert_eq!(call.step(true), DbCallStep::Done);
}

#[test]
fn success_ends_the_call() {
    let mut call = DbCall::start(false);
    assert_eq!(call.step(false), DbCallStep::Retry(250));
    assert_eq!(call.step(true), DbCallStep::Done);
}

#[test]
fn lost_connection_error_counts_attempts() {
    let last = FFError::build(Severity::Warning, "timeout".to_string());
    let e = connection_lost_error(5, Severity::Fatal, last);
    assert_eq!(e.get_msg(), "Database connection lost (5 failed attempts)");
    assert!(matches!(e.get_severity(), Severity::Fatal));
    assert_eq!(e.get_parent().unwrap().get_msg(), "timeout");
    let e = connection_lost_error(12, Severity::Warning, FFError::build(Severity::Info, String::new()));
    assert_eq!(e.get_msg(), "Database connection lost (12 failed attempts)");
}

#[test]
fn test_config_escapes_backslashes() {
    assert_eq!(build_config("test.db"), "[general]\ndb_path = \"test.db\"\n");
    assert_eq!(
        build_config("C:\\tmp\\x.db"),
        "[general]\ndb_path = \"C:\\\\tmp\\\\x.db\"\n"
    );
}
