use arbor::text::{decimal_string, is_whitespace, lines_of, str_equal, string_from_char_range, trim};

#[test]
fn trim_removes_unicode_white_space_at_both_ends() {
    assert_eq!(trim("\u{3000} a b\t\n"), "a b");
    assert_eq!(trim("   "), "");
    assert_eq!(trim("x"), "x");
}

#[test]
fn decimal_has_no_leading_zeros() {
    assert_eq!(decimal_string(0), "0");
    assert_eq!(decimal_string(1_500), "1500");
    assert_eq!(decimal_string(u64::MAX), "18446744073709551615");
}

#[test]
fn lines_split_like_str_lines() {
    assert_eq!(lines_of("a\r\nb\n"), vec!["a".to_owned(), "b".to_owned()]);
    assert_eq!(lines_of("\n\nc"), vec![String::new(), String::new(), "c".to_owned()]);
    assert!(lines_of("").is_empty());
    assert_eq!(lines_of("x\r"), vec!["x\r".to_owned()]);
}

#[test]
fn whitespace_and_equality() {
    assert!(is_whitespace('\u{a0}'));
    assert!(!is_whitespace('x'));
    assert!(str_equal("ok", "ok"));
    assert!(!str_equal("ok", "ok "));
    let chars: Vec<char> = "hello".chars().collect();
    assert_eq!(string_from_char_range(&chars, 1, 3), "el");
}
