use stars::text::{contains_char, trim_quotes_str};

#[test]
fn quotes_are_trimmed_at_both_ends() {
    assert_eq!(trim_quotes_str("\"Apple\""), "Apple");
    assert_eq!(trim_quotes_str("\"\"x\"y\"\""), "x\"y");
    assert_eq!(trim_quotes_str("plain"), "plain");
    assert_eq!(trim_quotes_str("\"\"\""), "");
    assert_eq!(trim_quotes_str(""), "");
}

#[test]
fn contains_char_finds_characters() {
    assert!(contains_char("S", 'S'));
    assert!(contains_char("South", 'S'));
    assert!(!contains_char("N", 'S'));
    assert!(!contains_char("", 'W'));
}
