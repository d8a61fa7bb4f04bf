use procmon::paths::extension_of;
use procmon::paths::join;
use procmon::paths::resolve_dir_in;
use procmon::paths::ENV_FOLDER_DATA;
use procmon::paths::ENV_FOLDER_LOG;
use procmon::{default_dir, resolve_dir};

#[test]
fn resolve_dir_honors_env_override() {
    let home = "/home/me";
    let dir = resolve_dir(Some(home), "data");
    assert_eq!(dir, home);
}

#[test]
fn resolve_dir_falls_back_to_cache_subdir() {
    let dir = resolve_dir(None, "logs");
    assert!(std::path::Path::new(&dir).ends_with("macos-proc-monitor/logs"));
}

#[test]
fn resolve_dir_goes_from_variable_to_cache_to_system() {
    assert_eq!(resolve_dir_in(Some("/x"), Some("/c"), "data"), "/x");
    assert_eq!(resolve_dir_in(Some(""), Some("/c"), "data"), "/c/macos-proc-monitor/data");
    assert_eq!(resolve_dir_in(None, Some("/c"), "logs"), "/c/macos-proc-monitor/logs");
    assert_eq!(resolve_dir_in(None, None, "logs"), "/var/db/macos-proc-monitor/logs");
}

#[test]
fn default_dir_goes_from_variable_to_home_to_system() {
    assert_eq!(default_dir(Some("/x"), Some("/home/u"), "data"), "/x");
    assert_eq!(default_dir(Some(""), Some("/home/u"), "data"), "");
    assert_eq!(default_dir(None, Some("/home/u"), "data"), "/home/u/.cache/macos-proc-monitor/data");
    assert_eq!(default_dir(None, None, "data"), "/var/db/macos-proc-monitor/data");
}

#[test]
fn the_variables_have_their_names() {
    assert_eq!(ENV_FOLDER_DATA, "MACOS_PROC_MONITOR_FOLDER_DATA");
    assert_eq!(ENV_FOLDER_LOG, "MACOS_PROC_MONITOR_FOLDER_LOG");
}

#[test]
fn join_agrees_with_std() {
    for base in ["", "/", "/a", "/a/", "a", "a/b"] {
        for part in ["", "x", "/x", "x/y", "*.parquet"] {
            let expected = std::path::Path::new(base).join(part);
            assert_eq!(join(base, part), expected.to_str().unwrap(), "{base} {part}");
        }
    }
}

#[test]
fn extension_agrees_with_std() {
    for name in [
        "a.log", "a", ".log", "..log", "a.b.c", "a.", ".a.b", "..", ".", "...", "..a", "monitor-2025-01-01.log",
        "2025-01-01T00_000000.parquet", "x.parquet.tmp",
    ] {
        let expected = std::path::Path::new(name).extension().map(|e| e.to_str().unwrap().to_string());
        assert_eq!(extension_of(name), expected, "{name}");
    }
}
