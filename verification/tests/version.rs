use procmon::VERSION;

#[test]
fn version_is_non_empty() {
    assert!(!VERSION.is_empty());
    assert_eq!(VERSION, "0.1.0");
}
