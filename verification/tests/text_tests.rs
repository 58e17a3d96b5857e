use riteed::text::{decimal_string, join_lines, strip_suffix};

#[test]
fn decimal_strings_have_no_leading_zeros() {
    assert_eq!(decimal_string(0), "0");
    assert_eq!(decimal_string(7), "7");
    assert_eq!(decimal_string(10), "10");
    assert_eq!(decimal_string(1_234_567), "1234567");
    assert_eq!(decimal_string(usize::MAX), usize::MAX.to_string());
}

#[test]
fn joined_lines_are_separated_by_one_newline() {
    assert_eq!(join_lines(&Vec::new()), "");
    assert_eq!(join_lines(&vec!["a".to_string()]), "a");
    assert_eq!(join_lines(&vec!["a".to_string(), String::new(), "c".to_string()]), "a\n\nc");
}

#[test]
fn suffixes_strip_by_characters() {
    assert_eq!(strip_suffix("ab\r\n", "\r\n"), Some("ab"));
    assert_eq!(strip_suffix("äö\n", "\n"), Some("äö"));
    assert_eq!(strip_suffix("ab\n", "\r\n"), None);
    assert_eq!(strip_suffix("\n", "\r\n"), None);
    assert_eq!(strip_suffix("", ""), Some(""));
    assert_eq!(strip_suffix("xyz", "yz"), Some("x"));
}
