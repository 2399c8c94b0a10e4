use agent_immune::text::{decimal_string, parse_unsigned_text, replace_char, same_text, trim_text};

#[test]
fn renders_and_parses_numbers() {
    assert_eq!(decimal_string(0), "0");
    assert_eq!(decimal_string(1234567890), "1234567890");
    assert_eq!(decimal_string(u64::MAX), "18446744073709551615");
    assert_eq!(parse_unsigned_text("42", u64::MAX), Some(42));
    assert_eq!(parse_unsigned_text("+42", u64::MAX), Some(42));
    assert_eq!(parse_unsigned_text("+", u64::MAX), None);
    assert_eq!(parse_unsigned_text("-1", u64::MAX), None);
    assert_eq!(parse_unsigned_text("4294967296", 4294967295), None);
    assert_eq!(parse_unsigned_text("007", 10), Some(7));
    assert_eq!(parse_unsigned_text("11", 10), None);
}

#[test]
fn trims_and_replaces() {
    assert_eq!(trim_text("\u{3000} a b\t\n"), "a b");
    assert_eq!(trim_text("   "), "");
    assert_eq!(replace_char("a'b'c", '\'', "\""), "a\"b\"c");
    assert!(same_text("x", "x"));
    assert!(!same_text("x", "y"));
}

#[test]
fn decimal_text_parses_back() {
    for n in [0u64, 7, 10, 99, 100, 65535, 4294967296, u64::MAX] {
        assert_eq!(parse_unsigned_text(&decimal_string(n), u64::MAX), Some(n));
    }
}
