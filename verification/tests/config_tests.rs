use rusty_fusion::config::general_settings::{DbHostSetting, DbPortSetting, LoggingLevelSetting};
use rusty_fusion::config::login_settings::{AutoCreateAccountsSetting, DefaultAccountLevelSetting};
use rusty_fusion::config::overrides::{get_overrides, take_config_path};
use rusty_fusion::config::shard_settings::{NumChannelsSetting, VisibilityRangeSetting};
use rusty_fusion::config::toml_value::{auto_quote_toml_value, is_float_text};
use rusty_fusion::config::Config;

fn strings(v: &[&str]) -> Vec<String> {
    v.iter().map(|s| s.to_string()).collect()
}

#[test]
fn default_config_gives_documented_defaults() {
    let c = Config::default();
    assert_eq!(c.general.logging_level_console.get(), 2);
    assert_eq!(c.general.logging_level_file.get(), 2);
    assert_eq!(c.general.log_write_interval.get(), 60);
    assert_eq!(c.general.live_check_time.get(), 60);
    assert_eq!(c.general.server_key.get(), "myserverkey");
    assert_eq!(c.general.db_username.get(), "admin");
    assert_eq!(c.general.db_password.get(), "mypassword");
    assert_eq!(c.general.db_host.get(), "localhost");
    assert_eq!(c.general.db_port.get(), 5432);
    assert_eq!(c.general.table_data_path.get(), "tabledata/");
    assert_eq!(c.login.log_path.get(), "login.log");
    assert_eq!(c.login.listen_addr.get(), "127.0.0.1:23000");
    assert!(c.login.auto_create_accounts.get());
    assert_eq!(c.login.default_account_level.get(), 99);
    assert_eq!(c.login.motd_path.get(), "motd.txt");
    assert_eq!(c.shard.log_path.get(), "shard.log");
    assert_eq!(c.shard.shard_id.get(), 1);
    assert_eq!(c.shard.listen_addr.get(), "127.0.0.1:23001");
    assert_eq!(c.shard.external_addr.get(), "127.0.0.1:23001");
    assert_eq!(c.shard.login_server_addr.get(), "127.0.0.1:23000");
    assert_eq!(c.shard.login_server_conn_interval.get(), 10);
    assert_eq!(c.shard.num_channels.get(), 1);
    assert_eq!(c.shard.max_channel_pop.get(), 100);
    assert_eq!(c.shard.visibility_range.get(), 1);
    assert_eq!(c.shard.autosave_interval.get(), 5);
    assert_eq!(c.shard.num_sliders.get(), 20);
    assert_eq!(c.shard.vehicle_duration.get(), 10080);
    assert!(!c.general.db_host.is_set());
    assert!(!c.shard.num_channels.is_set_to_default());
}

#[test]
fn set_settings_override_defaults() {
    let s = LoggingLevelSetting::new(Some(4));
    assert!(s.is_set());
    assert_eq!(s.get(), 4);
    assert!(!s.is_set_to_default());
    assert!(LoggingLevelSetting::new(Some(2)).is_set_to_default());
    let h = DbHostSetting::new(Some("db.example".to_string()));
    assert_eq!(h.get(), "db.example");
    assert!(!h.is_set_to_default());
    assert!(DbHostSetting::new(Some("localhost".to_string())).is_set_to_default());
    assert!(!AutoCreateAccountsSetting::new(Some(false)).get());
    assert!(DefaultAccountLevelSetting::new(Some(99)).is_set_to_default());
    assert_eq!(DbPortSetting::new(None).get(), 5432);
}

#[test]
fn merge_takes_only_what_is_set() {
    let mut base = Config::default();
    base.general.db_port = DbPortSetting::new(Some(6000));
    base.shard.num_channels = NumChannelsSetting::new(Some(2));
    let mut top = Config::default();
    top.shard.num_channels = NumChannelsSetting::new(Some(4));
    top.shard.visibility_range = VisibilityRangeSetting::new(Some(3));
    base.merge(top);
    assert_eq!(base.general.db_port.get(), 6000);
    assert_eq!(base.shard.num_channels.get(), 4);
    assert_eq!(base.shard.visibility_range.get(), 3);
    assert!(!base.login.log_path.is_set());
}

#[test]
fn merging_an_empty_config_changes_nothing() {
    let mut base = Config::default();
    base.general.db_host = DbHostSetting::new(Some("h".to_string()));
    base.merge(Config::default());
    assert_eq!(base.general.db_host.get(), "h");
    assert!(!base.general.db_port.is_set());
}

#[test]
fn values_that_read_as_toml_stay_bare() {
    for v in [
        "\"already\"", "'single'", "\"", "true", "false", "inf", "nan", "10", "-5", "+7",
        "18446744073709551615", "1.5", "-2.", ".5", "1e3", "2E-4", "Infinity", "-NaN", "0x1F",
        "0o17", "0b101", "0xZZ", "10_080", "-1_000", "+1_2_3",
    ] {
        assert_eq!(auto_quote_toml_value(v), v, "{}", v);
    }
}

#[test]
fn other_values_become_quoted_strings() {
    assert_eq!(auto_quote_toml_value("hello"), "\"hello\"");
    assert_eq!(auto_quote_toml_value(""), "\"\"");
    assert_eq!(auto_quote_toml_value("1__0"), "\"1__0\"");
    assert_eq!(auto_quote_toml_value("_10"), "\"_10\"");
    assert_eq!(auto_quote_toml_value("10_"), "\"10_\"");
    assert_eq!(auto_quote_toml_value("127.0.0.1:23000"), "\"127.0.0.1:23000\"");
    assert_eq!(auto_quote_toml_value("a\\b"), "\"a\\\\b\"");
    assert_eq!(auto_quote_toml_value("say \"hi\""), "\"say \\\"hi\\\"\"");
    assert_eq!(auto_quote_toml_value("\"half"), "\"\\\"half\"");
    assert_eq!(auto_quote_toml_value("1.2.3"), "\"1.2.3\"");
    assert_eq!(auto_quote_toml_value("True"), "\"True\"");
}

#[test]
fn float_check_agrees_with_std() {
    let samples = [
        "", "+", "-", ".", "1", "-1", "+1", "1.", ".1", "1.1", "1..1", "1e", "1e5", "1e+5", "1e-5",
        "1E5", "e5", ".e5", "1.e5", ".5e-3", "inf", "INF", "-inf", "+Infinity", "infinit", "nan",
        "NaN", "-nan", "nann", "1_0", " 1", "1 ", "0x10", "1e5.5", "1ee5", "--1", "+-1", "١",
        "12345678901234567890123", "infinityx", "Inf", "iNfInItY",
    ];
    for s in samples {
        assert_eq!(is_float_text(s), s.parse::<f64>().is_ok(), "{:?}", s);
    }
}

#[test]
fn overrides_group_by_section_in_first_mention_order() {
    let args = strings(&[
        "--shard.num_channels=3",
        "general.db_host=db.example",
        "junk",
        "nosection=1",
        "-shard.visibility_range=2",
    ]);
    let o = get_overrides(&args);
    assert_eq!(
        o.toml.as_deref(),
        Some("[shard]\nnum_channels = 3\nvisibility_range = 2\n[general]\ndb_host = \"db.example\"\n")
    );
    assert_eq!(o.ignored, vec!["nosection=1".to_string()]);
}

#[test]
fn no_overrides_gives_no_text() {
    let o = get_overrides(&strings(&["plain", "--flag"]));
    assert!(o.toml.is_none());
    assert!(o.ignored.is_empty());
}

#[test]
fn value_may_hold_equals_signs() {
    let o = get_overrides(&strings(&["general.server_key=a=b"]));
    assert_eq!(o.toml.as_deref(), Some("[general]\nserver_key = \"a=b\"\n"));
}

#[test]
fn config_path_is_taken_from_the_first_config_argument() {
    let (path, rest) = take_config_path(strings(&["a", "--config=my.toml", "config=other"]));
    assert_eq!(path.as_deref(), Some("my.toml"));
    assert_eq!(rest, strings(&["a", "config=other"]));
    let (path, rest) = take_config_path(strings(&["shard.shard_id=2"]));
    assert!(path.is_none());
    assert_eq!(rest, strings(&["shard.shard_id=2"]));
}

#[test]
fn quoted_values_read_back_as_typed() {
    for v in ["hello", "", "a\\b", "say \"hi\"", "127.0.0.1:23000", "C:\\x\\\"y", "é ü"] {
        let line = format!("k = {}", auto_quote_toml_value(v));
        let table: toml::Table = toml::from_str(&line).unwrap();
        assert_eq!(table["k"].as_str(), Some(v), "{}", line);
    }
}

#[test]
fn bare_values_read_as_toml_values() {
    for v in ["true", "10", "-5", "1.5", "inf", "nan", "0x1F", "10_080", "-1_000"] {
        let line = format!("k = {}", auto_quote_toml_value(v));
        let table: Result<toml::Table, _> = toml::from_str(&line);
        assert!(table.is_ok(), "{}", line);
    }
}

#[test]
fn underscored_override_reads_as_an_integer() {
    let line = format!("k = {}", auto_quote_toml_value("10_080"));
    let table: toml::Table = toml::from_str(&line).unwrap();
    assert_eq!(table["k"].as_integer(), Some(10080));
}

#[test]
fn plaintext_passwords_are_off_by_default() {
    assert!(!Config::default().login.allow_plaintext_passwords.get());
}
