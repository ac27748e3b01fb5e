use pdu_exporter::sort::sort_by_keys;
use pdu_exporter::text::{
    decimal_string, join_strings, parse_u64, split_once, starts_with_text, str_eq, str_lt,
    to_lower_hex, trimmed,
};

#[test]
fn decimal_string_writes_plain_numbers() {
    assert_eq!(decimal_string(0), "0");
    assert_eq!(decimal_string(7), "7");
    assert_eq!(decimal_string(10), "10");
    assert_eq!(decimal_string(2016), "2016");
    assert_eq!(decimal_string(usize::MAX), usize::MAX.to_string());
}

#[test]
fn lexicographic_order_follows_string_order() {
    assert!(str_lt("1\"", "10"));
    assert!(str_lt("abc", "abd"));
    assert!(str_lt("ab", "abc"));
    assert!(!str_lt("abc", "ab"));
    assert!(!str_lt("same", "same"));
    assert!(str_lt("Z", "a"));
    assert!(str_lt("a", "\u{e9}"));
    assert!(str_eq("x\u{e9}", "x\u{e9}"));
    assert!(!str_eq("x", "xy"));
}

#[test]
fn trimmed_removes_unicode_white_space() {
    assert_eq!(trimmed("  a b \t\n"), "a b");
    assert_eq!(trimmed("\u{3000}x\u{a0}"), "x");
    assert_eq!(trimmed("   "), "");
    assert_eq!(trimmed(""), "");
    for s in ["\u{85}q\u{2028}", " \r\nvalue\u{205f}", "\u{200b}z"] {
        assert_eq!(trimmed(s), s.trim());
    }
}

#[test]
fn parse_u64_matches_std() {
    for s in [
        "0", "42", "+42", "-42", "", "+", "12a", " 1", "18446744073709551615",
        "18446744073709551616", "99999999999999999999", "007",
    ] {
        assert_eq!(parse_u64(s), s.parse::<u64>().ok(), "input {:?}", s);
    }
}

#[test]
fn split_once_splits_at_first_separator() {
    assert_eq!(
        split_once("user:pa:ss", ':'),
        Some(("user".to_string(), "pa:ss".to_string()))
    );
    assert_eq!(split_once("nocolon", ':'), None);
    assert_eq!(split_once(":x", ':'), Some((String::new(), "x".to_string())));
    assert_eq!(split_once("a=", '='), Some(("a".to_string(), String::new())));
}

#[test]
fn join_and_prefix() {
    let list = vec!["a".to_string(), "b".to_string(), "c".to_string()];
    assert_eq!(join_strings(&list, "\n"), "a\nb\nc");
    assert_eq!(join_strings(&Vec::new(), ","), "");
    assert_eq!(join_strings(&vec!["only".to_string()], ","), "only");
    assert!(starts_with_text("Basic abc", "Basic"));
    assert!(!starts_with_text("Bas", "Basic"));
    assert!(!starts_with_text("basic abc", "Basic"));
}

#[test]
fn lower_hex_writes_two_digits_per_byte() {
    assert_eq!(to_lower_hex(&[0x00, 0x0f, 0xa0, 0xff]), "000fa0ff");
    assert_eq!(to_lower_hex(&[]), "");
}

#[test]
fn sort_by_keys_sorts_like_std() {
    let input: Vec<String> = ["b", "a10", "a1", "", "a1", "Z", "\u{e9}"]
        .iter()
        .map(|s| s.to_string())
        .collect();
    let mut expected = input.clone();
    expected.sort();
    assert_eq!(sort_by_keys(input), expected);
}
