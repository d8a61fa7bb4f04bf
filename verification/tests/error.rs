use procmon::CoreError;

#[test]
fn display_messages_are_prefixed() {
    let io = CoreError::Io(std::io::Error::other("boom"));
    assert!(io.message().starts_with("io error:"));
    let dirs = CoreError::Dirs("nope".into());
    assert!(dirs.message().contains("nope"));
    let web = CoreError::Web("bind failed".into());
    assert!(web.message().contains("bind failed"));
}

#[test]
fn io_error_converts_via_from() {
    let e: CoreError = std::io::Error::other("x").into();
    assert!(matches!(e, CoreError::Io(_)));
}

#[test]
fn config_error_converts_via_from() {
    let e: CoreError = figment::Error::from("no such key".to_string()).into();
    assert!(matches!(e, CoreError::Config(_)));
    assert!(e.message().starts_with("config error: "));
    assert!(e.message().contains("no such key"));
}

#[test]
fn messages_are_exact_where_the_detail_is_given() {
    let dirs = CoreError::Dirs("nope".into());
    assert_eq!(dirs.message(), "directory resolution failed: nope");
    let web = CoreError::Web("bind failed".into());
    assert_eq!(web.message(), "web server error: bind failed");
    let io = CoreError::Io(std::io::Error::other("boom"));
    assert_eq!(io.message(), "io error: boom");
    assert_eq!(io.message_with("full"), "io error: full");
}
