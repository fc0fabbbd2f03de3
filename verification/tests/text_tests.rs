use auto_mac_layout::layout::failed_item_count;
use auto_mac_layout::text::{chars_of, parse_usize, push_decimal, push_signed_decimal, sort_lex, string_of};

fn parse(s: &str) -> Option<usize> {
    parse_usize(&chars_of(s))
}

#[test]
fn parse_numbers() {
    assert_eq!(parse("0"), Some(0));
    assert_eq!(parse("42"), Some(42));
    assert_eq!(parse("+7"), Some(7));
    assert_eq!(parse("007"), Some(7));
    assert_eq!(parse(""), None);
    assert_eq!(parse("+"), None);
    assert_eq!(parse("-1"), None);
    assert_eq!(parse("12a"), None);
    assert_eq!(parse(" 1"), None);
    assert_eq!(parse(&usize::MAX.to_string()), Some(usize::MAX));
    assert_eq!(parse("18446744073709551616"), None);
    assert_eq!(parse("99999999999999999999x"), None);
}

#[test]
fn decimal_numerals() {
    let mut v = Vec::new();
    push_decimal(&mut v, 0);
    push_decimal(&mut v, 1234567890);
    push_signed_decimal(&mut v, -5);
    push_signed_decimal(&mut v, i64::MIN);
    assert_eq!(string_of(&v), "01234567890-5-9223372036854775808");
    let mut w = Vec::new();
    push_decimal(&mut w, u64::MAX);
    assert_eq!(string_of(&w), "18446744073709551615");
}

#[test]
fn sorting_is_lexicographic() {
    let v: Vec<Vec<char>> = ["b", "a", "ab", "", "B", "é", "a"].iter().map(|s| chars_of(s)).collect();
    let sorted: Vec<String> = sort_lex(&v).iter().map(|c| string_of(c)).collect();
    let mut expected: Vec<String> = ["b", "a", "ab", "", "B", "é", "a"].iter().map(|s| s.to_string()).collect();
    expected.sort();
    assert_eq!(sorted, expected);
}

#[test]
fn failed_counts() {
    assert_eq!(failed_item_count("0\n"), 0);
    assert_eq!(failed_item_count("  3 \n"), 3);
    assert_eq!(failed_item_count("\u{a0}12\u{3000}"), 12);
    assert_eq!(failed_item_count(""), 0);
    assert_eq!(failed_item_count("three"), 0);
    assert_eq!(failed_item_count("1 2"), 0);
}
