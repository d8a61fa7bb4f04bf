use procmon::text::push_decimal;
use procmon::text::push_signed_decimal;
use procmon::text::push_zero_padded;
use procmon::text::same_text;
use procmon::text::split_lines;

#[test]
fn numerals_agree_with_std() {
    for n in [0u64, 1, 9, 10, 99, 100, 123456, 999999, 1000000, u64::MAX] {
        let mut out = String::from("x");
        push_decimal(&mut out, n);
        assert_eq!(out, format!("x{n}"));
        let mut out = String::new();
        push_zero_padded(&mut out, n, 6);
        assert_eq!(out, format!("{n:06}"));
    }
    for n in [0i64, -1, 5, -10, i64::MIN, i64::MAX] {
        let mut out = String::new();
        push_signed_decimal(&mut out, n);
        assert_eq!(out, format!("{n}"));
    }
}

#[test]
fn lines_agree_with_std() {
    for text in ["", "\n", "a", "a\n", "a\nb", "a\r\nb\r", "\r\n\n", "a\n\nb\n", "\u{e9}\n\u{2028}x"] {
        let expected: Vec<String> = text.lines().map(|l| l.to_string()).collect();
        assert_eq!(split_lines(text), expected);
    }
}

#[test]
fn texts_are_compared_whole() {
    assert!(same_text("abc", "abc"));
    assert!(!same_text("abc", "abd"));
    assert!(!same_text("abc", "ab"));
}
