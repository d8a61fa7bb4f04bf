use procmon::config::ONE_SECOND_BITS;
use procmon::paths::APP_NAME;
use procmon::settings::env_value;
use procmon::settings::ConfigFile;
use procmon::settings::Layer;
use procmon::settings::Setting;
use procmon::Config;
use procmon::ConfigOverrides;
use procmon::CoreError;

fn load(file: Option<&str>, vars: &[(&str, &str)], overrides: &ConfigOverrides) -> Result<Config, CoreError> {
    let vars: Vec<(String, String)> = vars.iter().map(|(n, v)| (n.to_string(), v.to_string())).collect();
    let file = file.map(config_file);
    Config::load(file.as_ref(), &vars, Setting::Absent, Setting::Absent, overrides)
}

fn config_file(text: &str) -> ConfigFile {
    ConfigFile { path: "/nonexistent/config.toml".to_string(), text: text.to_string() }
}

#[test]
fn default_config_has_expected_values() {
    let cfg = Config::default();
    assert!((f64::from_bits(cfg.interval_bits) - 1.0).abs() < f64::EPSILON);
    assert_eq!(cfg.port, 9090);
    assert_eq!(cfg.bind, "127.0.0.1");
    assert_eq!(cfg.data_retention, 7);
}

#[test]
fn default_config_has_all_other_values() {
    let cfg = Config::default();
    assert_eq!(cfg.slow_interval, 60);
    assert!(!cfg.sudo);
    assert!(!cfg.no_slow);
    assert_eq!(cfg.pid, None);
    assert_eq!(cfg.log_retention, 7);
    assert_eq!(cfg.flush_interval, 30);
    assert_eq!(1.0f64.to_bits(), ONE_SECOND_BITS);
}

#[test]
fn overrides_win_over_defaults() {
    let overrides = ConfigOverrides {
        port: Some(8080),
        no_slow: Some(true),
        ..Default::default()
    };
    let cfg = load(None, &[], &overrides).unwrap();
    assert_eq!(cfg.port, 8080);
    assert!(cfg.no_slow);
    // Untouched field keeps its default.
    assert_eq!(cfg.data_retention, 7);
}

#[test]
fn load_reads_values_from_toml_file() {
    let text = "interval = 5.0\nport = 7777\nbind = \"0.0.0.0\"\nno_slow = true\n";
    let cfg = Config::load(
        Some(&config_file(text)),
        &Vec::new(),
        Setting::Given(5.0f64.to_bits()),
        Setting::Absent,
        &ConfigOverrides::default(),
    )
    .unwrap();
    assert!((f64::from_bits(cfg.interval_bits) - 5.0).abs() < f64::EPSILON);
    assert_eq!(cfg.port, 7777);
    assert_eq!(cfg.bind, "0.0.0.0");
    assert!(cfg.no_slow);
    // Field absent from the file keeps its default.
    assert_eq!(cfg.flush_interval, 30);
}

#[test]
fn cli_overrides_beat_the_toml_file() {
    let overrides = ConfigOverrides {
        port: Some(9999),
        ..Default::default()
    };
    let cfg = load(Some("port = 7777\n"), &[], &overrides).unwrap();
    assert_eq!(cfg.port, 9999);
}

#[test]
fn every_setting_can_stand_in_the_file() {
    let text = "slow_interval = 5\nsudo = true\nno_slow = true\npid = 42\n\
                data_retention = 1\nlog_retention = 2\nflush_interval = 3\nport = 4\nbind = \"::1\"\n";
    let cfg = load(Some(text), &[], &ConfigOverrides::default()).unwrap();
    assert_eq!(cfg.slow_interval, 5);
    assert!(cfg.sudo);
    assert!(cfg.no_slow);
    assert_eq!(cfg.pid, Some(42));
    assert_eq!(cfg.data_retention, 1);
    assert_eq!(cfg.log_retention, 2);
    assert_eq!(cfg.flush_interval, 3);
    assert_eq!(cfg.port, 4);
    assert_eq!(cfg.bind, "::1");
}

#[test]
fn every_setting_can_stand_in_the_environment() {
    let vars = [
        ("slow_interval", "5"),
        ("sudo", "true"),
        ("no_slow", "true"),
        ("pid", "42"),
        ("data_retention", "1"),
        ("log_retention", "2"),
        ("flush_interval", "3"),
        ("port", "8080"),
        ("bind", "0.0.0.0"),
        ("folder_data", "/data"),
        ("ports", "1"),
    ];
    let cfg = load(None, &vars, &ConfigOverrides::default()).unwrap();
    assert_eq!(cfg.slow_interval, 5);
    assert!(cfg.sudo);
    assert!(cfg.no_slow);
    assert_eq!(cfg.pid, Some(42));
    assert_eq!(cfg.data_retention, 1);
    assert_eq!(cfg.log_retention, 2);
    assert_eq!(cfg.flush_interval, 3);
    assert_eq!(cfg.port, 8080);
    assert_eq!(cfg.bind, "0.0.0.0");
}

#[test]
fn environment_beats_the_file_and_flags_beat_both() {
    let vars = [("port", "8080")];
    let cfg = load(Some("port = 7777\n"), &vars, &ConfigOverrides::default()).unwrap();
    assert_eq!(cfg.port, 8080);
    let flags = ConfigOverrides { port: Some(9999), ..Default::default() };
    let cfg = load(Some("port = 7777\n"), &vars, &flags).unwrap();
    assert_eq!(cfg.port, 9999);
}

#[test]
fn the_interval_goes_by_the_same_order() {
    let five = 5.0f64.to_bits();
    let two = 2.0f64.to_bits();
    let half = 0.5f64.to_bits();
    let none = ConfigOverrides::default();
    let cfg = Config::load(Some(&config_file("")), &Vec::new(), Setting::Given(five), Setting::Given(two), &none).unwrap();
    assert_eq!(cfg.interval_bits, two);
    let cfg = Config::load(Some(&config_file("")), &Vec::new(), Setting::Given(five), Setting::Absent, &none).unwrap();
    assert_eq!(cfg.interval_bits, five);
    let flag = ConfigOverrides { interval_bits: Some(half), ..Default::default() };
    let cfg = Config::load(Some(&config_file("")), &Vec::new(), Setting::Given(five), Setting::Given(two), &flag).unwrap();
    assert_eq!(cfg.interval_bits, half);
}

#[test]
fn invalid_values_are_errors_unless_they_are_replaced() {
    let none = ConfigOverrides::default();
    for text in [
        "port = \"x\"\n",
        "port = 70000\n",
        "pid = -1\n",
        "sudo = 1\n",
        "slow_interval = true\n",
        "bind = 7\n",
    ] {
        let e = load(Some(text), &[], &none).unwrap_err();
        assert!(matches!(e, CoreError::Config(_)), "{text}");
    }
    for var in [
        ("port", "70000"),
        ("pid", "x"),
        ("sudo", "yes"),
        ("slow_interval", "-1"),
        ("bind", "7"),
    ] {
        let e = load(None, &[var], &none).unwrap_err();
        assert!(matches!(e, CoreError::Config(_)), "{}", var.0);
    }
    let cfg = load(Some("port = \"x\"\n"), &[("port", "80")], &none).unwrap();
    assert_eq!(cfg.port, 80);
}

#[test]
fn a_file_that_is_not_toml_is_an_error() {
    let flags = ConfigOverrides { port: Some(1), ..Default::default() };
    let e = load(Some("port = = 1"), &[], &flags).unwrap_err();
    assert!(matches!(e, CoreError::Config(_)));
}

#[test]
fn the_first_invalid_setting_by_name_is_reported() {
    let mut file = Layer::empty();
    file.sudo = Setting::Invalid(figment::Error::from("sudo is wrong".to_string()));
    file.bind = Setting::Invalid(figment::Error::from("bind is wrong".to_string()));
    let e = Config::resolve(file, Layer::empty(), &ConfigOverrides::default()).unwrap_err();
    assert!(e.message().contains("bind is wrong"));
}

#[test]
fn nothing_given_is_the_default() {
    let cfg = Config::resolve(Layer::empty(), Layer::empty(), &ConfigOverrides::default()).unwrap();
    assert_eq!(cfg.interval_bits, ONE_SECOND_BITS);
    assert_eq!(cfg.port, 9090);
    assert_eq!(cfg.pid, None);
}

fn pairs(vars: &[(&str, &str)]) -> Vec<(String, String)> {
    vars.iter().map(|(n, v)| (n.to_string(), v.to_string())).collect()
}

#[test]
fn the_last_variable_for_a_setting_counts() {
    let vars = pairs(&[("port", "1"), ("port", "2"), ("ports", "3"), ("por", "4")]);
    assert!(matches!(env_value(&vars, "port"), Setting::Given(text) if text == "2"));
    assert!(matches!(env_value(&vars, "bind"), Setting::Absent));
}

#[test]
fn a_table_is_no_setting() {
    let vars = pairs(&[("port", "1"), ("port.x", "2")]);
    assert!(matches!(env_value(&vars, "port"), Setting::Invalid(_)));
    let e = load(None, &[("port.x", "2")], &ConfigOverrides::default()).unwrap_err();
    assert!(matches!(e, CoreError::Config(_)));
    let cfg = load(None, &[("port.x", "2"), ("port", "80")], &ConfigOverrides::default()).unwrap();
    assert_eq!(cfg.port, 80);
}

#[test]
fn values_that_the_parser_cannot_take_are_errors() {
    let none = ConfigOverrides::default();
    let deep = "[".repeat(100_000);
    for text in ["\"\u{e9}\\t\"", " \n\"a\u{20ac}\\\\\"", "[\"\u{e9}\\t\"]", deep.as_str()] {
        let e = load(None, &[("bind", text)], &none).unwrap_err();
        assert!(matches!(e, CoreError::Config(_)));
    }
}

#[test]
fn values_that_the_parser_can_take_are_read() {
    let none = ConfigOverrides::default();
    let brackets = "[".repeat(32);
    let braces = "{a= ".repeat(32);
    let inside = format!("a{}", "[".repeat(100_000));
    let quoted = format!("\"{}\"", "[".repeat(100_000));
    for (text, bind) in [
        ("\u{e9}\"\\", "\u{e9}\"\\"),
        ("\"\u{e9}\\", "\"\u{e9}\\"),
        ("\"\u{e9}\\\"", "\"\u{e9}\\\""),
        ("\"\u{e9}\"\\", "\"\u{e9}\"\\"),
        ("\"\u{1}\u{e9}\\t\"", "\"\u{1}\u{e9}\\t\""),
        ("\"a\\t\u{e9}\"", "a\t\u{e9}"),
        (inside.as_str(), inside.as_str()),
        (quoted.as_str(), &quoted[1..100_001]),
        ("\"a\\tb\"", "a\tb"),
        ("\"\u{e9}\"", "\u{e9}"),
        ("\u{e9}\\t", "\u{e9}\\t"),
        (brackets.as_str(), brackets.as_str()),
        (braces.as_str(), braces.as_str()),
    ] {
        assert_eq!(load(None, &[("bind", text)], &none).unwrap().bind, bind);
    }
}

#[test]
fn errors_name_the_setting_and_its_source() {
    let none = ConfigOverrides::default();
    let message = load(Some("port = \"x\"\n"), &[], &none).unwrap_err().message();
    assert!(message.contains("port"), "{message}");
    assert!(message.contains("config.toml TOML file"), "{message}");
    let message = load(Some("port = = 1"), &[], &none).unwrap_err().message();
    assert!(message.contains("config.toml TOML file"), "{message}");
    let message = load(None, &[("port", "x")], &none).unwrap_err().message();
    assert!(message.contains("for key \"PORT\""), "{message}");
    assert!(message.contains("`MACOS_PROC_MONITOR_` environment variable(s)"), "{message}");
}

#[test]
fn config_dir_ends_with_app_name() {
    let dir = Config::config_dir().unwrap();
    assert!(std::path::Path::new(&dir).ends_with(APP_NAME));
}

#[test]
fn config_file_is_the_given_one_or_in_the_config_dir() {
    assert_eq!(Config::config_file(Some("/x.toml")).unwrap(), "/x.toml");
    let path = Config::config_file(None).unwrap();
    assert!(path.ends_with("/macos-proc-monitor/config.toml"));
    let path = Config::config_file_from(None, Ok("/c".to_string())).unwrap();
    assert_eq!(path, "/c/config.toml");
    let path = Config::config_file_from(Some("/x.toml"), Err(CoreError::Dirs("none".to_string()))).unwrap();
    assert_eq!(path, "/x.toml");
    let e = Config::config_file_from(None, Err(CoreError::Dirs("none".to_string()))).unwrap_err();
    assert_eq!(e.message(), "directory resolution failed: none");
}

#[test]
fn the_config_dir_follows_from_what_was_found() {
    let dir = Config::config_dir_from(Ok(Some("/home/u/.config".to_string()))).unwrap();
    assert_eq!(dir, "/home/u/.config/macos-proc-monitor");
    let e = Config::config_dir_from(Ok(None)).unwrap_err();
    assert_eq!(
        e.message(),
        "directory resolution failed: the path of the configuration directory is not UTF-8"
    );
    let e = Config::config_dir_from(Err(etcetera::HomeDirError)).unwrap_err();
    assert_eq!(e.message(), "directory resolution failed: could not locate home directory");
}

#[test]
fn data_and_log_dirs_resolve() {
    let cfg = Config::default();
    let data = cfg.data_dir(None);
    let logs = cfg.log_dir(None);
    let data = std::path::Path::new(&data);
    let logs = std::path::Path::new(&logs);
    assert!(data.ends_with("data") || data.is_absolute());
    assert!(logs.ends_with("logs") || logs.is_absolute());
}

#[test]
fn data_and_log_dirs_follow_their_variables() {
    let cfg = Config::default();
    assert_eq!(cfg.data_dir(Some("/var/db/x")), "/var/db/x");
    assert_eq!(cfg.log_dir(Some("/var/log/x")), "/var/log/x");
    assert!(cfg.data_dir(Some("")).ends_with("/macos-proc-monitor/data"));
}
