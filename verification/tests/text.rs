use moviola::text::{chars_of, decimal, eq_ignore_ascii_case, is_blank, join};

#[test]
fn decimal_numerals() {
    assert_eq!(decimal(0), "0");
    assert_eq!(decimal(7), "7");
    assert_eq!(decimal(10), "10");
    assert_eq!(decimal(1234567), "1234567");
    assert_eq!(decimal(usize::MAX), usize::MAX.to_string());
}

#[test]
fn joining() {
    assert_eq!(join(&[], ", "), "");
    assert_eq!(join(&["a"], ", "), "a");
    assert_eq!(join(&["a", "b", "c"], ", "), "a, b, c");
}

#[test]
fn ascii_case_insensitive_matching() {
    assert!(eq_ignore_ascii_case("MoV", "mov"));
    assert!(eq_ignore_ascii_case("", ""));
    assert!(!eq_ignore_ascii_case("mov", "mo"));
    assert!(!eq_ignore_ascii_case("é", "É"));
    assert!(!eq_ignore_ascii_case("[", "{"));
}

#[test]
fn blank_texts() {
    assert!(is_blank(""));
    assert!(is_blank(" \t\r\n\u{a0}\u{2003}"));
    assert!(!is_blank(" x "));
}

#[test]
fn characters() {
    assert_eq!(chars_of("añb"), vec!['a', 'ñ', 'b']);
}
