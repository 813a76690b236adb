use xsolla_callback::text::{
    i32_to_decimal, str_eq, str_lt, strip_prefix, to_hex_lower, trim_matches_char,
};

#[test]
fn hex_is_lowercase_two_digits_per_byte() {
    assert_eq!(to_hex_lower(&[0x0a, 0x14, 0x1e, 0xff, 0x00]), "0a141eff00");
    assert_eq!(to_hex_lower(&[]), "");
}

#[test]
fn decimal_text_of_integers() {
    assert_eq!(i32_to_decimal(0), "0");
    assert_eq!(i32_to_decimal(9), "9");
    assert_eq!(i32_to_decimal(10), "10");
    assert_eq!(i32_to_decimal(-1), "-1");
    assert_eq!(i32_to_decimal(i32::MIN), "-2147483648");
    assert_eq!(i32_to_decimal(i32::MAX), "2147483647");
}

#[test]
fn trim_removes_repeated_quotes_at_both_ends() {
    assert_eq!(trim_matches_char("\"\"a\"b\"\"", '"'), "a\"b");
    assert_eq!(trim_matches_char("\"\"\"", '"'), "");
    assert_eq!(trim_matches_char("plain", '"'), "plain");
    assert_eq!(trim_matches_char("", '"'), "");
}

#[test]
fn strings_compare_by_bytes() {
    assert!(str_lt("a", "b"));
    assert!(str_lt("a", "ab"));
    assert!(!str_lt("ab", "a"));
    assert!(!str_lt("a", "a"));
    assert!(str_lt("Z", "a"));
    assert!(str_lt("z", "\u{e9}"));
    assert!(str_eq("\u{e9}t\u{e9}", "\u{e9}t\u{e9}"));
    assert!(!str_eq("a", "ab"));
}

#[test]
fn prefix_is_stripped_only_when_present() {
    assert_eq!(strip_prefix("Signature abc", "Signature "), Some("abc".to_string()));
    assert_eq!(strip_prefix("Signature ", "Signature "), Some(String::new()));
    assert_eq!(strip_prefix("signature abc", "Signature "), None);
    assert_eq!(strip_prefix("Sig", "Signature "), None);
}
