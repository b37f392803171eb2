use pulsar::text::{
    after_prefix, contains_text, count_char, decimal_text, digits_at_start, ends_with, has_char,
    hex_text, join_texts, key_to_hex, padded_left, padded_right, read_number, same,
    split_first, split_last, split_lines, split_text, split_words, starts_with,
    text_after, to_lower, trimmed,
};

#[test]
fn numbers() {
    assert_eq!(read_number("65535", 10, 65535), Some(65535));
    assert_eq!(read_number("+7", 10, 255), Some(7));
    assert_eq!(read_number("007", 10, 255), Some(7));
    assert_eq!(read_number("65536", 10, 65535), None);
    assert_eq!(read_number("", 10, 255), None);
    assert_eq!(read_number("+", 10, 255), None);
    assert_eq!(read_number("-1", 10, 255), None);
    assert_eq!(read_number("fF", 16, 255), Some(255));
    assert_eq!(read_number("18446744073709551615", 10, u64::MAX), Some(u64::MAX));
    assert_eq!(read_number("18446744073709551616", 10, u64::MAX), None);
    assert_eq!(decimal_text(0), "0");
    assert_eq!(decimal_text(u64::MAX), "18446744073709551615");
    assert_eq!(hex_text(0xbeef), "beef");
    assert_eq!(key_to_hex(&[0, 0x1f, 0xff]), "00 1f ff");
    assert_eq!(key_to_hex(&[]), "");
    assert_eq!(digits_at_start("12ab"), "12");
}

#[test]
fn splitting_and_joining() {
    assert_eq!(split_text("a..b", '.'), vec!["a", "", "b"]);
    assert_eq!(split_text("", '.'), vec![""]);
    assert_eq!(join_texts(&split_text("a..b", '.'), 0, "."), "a..b");
    assert_eq!(split_words("  a \t b\u{a0}c\n"), vec!["a", "b", "c"]);
    assert_eq!(split_lines("a\r\nb\n\nc"), vec!["a", "b", "", "c"]);
    assert_eq!(split_lines("a\n"), vec!["a"]);
    assert_eq!(split_first("a:b:c", ':'), Some(("a".to_string(), "b:c".to_string())));
    assert_eq!(split_last("a:b:c", ':'), Some(("a:b".to_string(), "c".to_string())));
    assert_eq!(split_last("abc", ':'), None);
    assert_eq!(trimmed("  a b "), "a b");
}

#[test]
fn searching() {
    assert!(starts_with("xdp: prog", "xdp:"));
    assert!(!starts_with("x", "xdp"));
    assert!(ends_with("::1:any", ":any"));
    assert!(contains_text("generic id 5", "id"));
    assert_eq!(text_after("prog id 137", "id "), Some("137".to_string()));
    assert_eq!(text_after("prog", "id "), None);
    assert_eq!(after_prefix("::ffff:1.2.3.4", "::ffff:"), Some("1.2.3.4".to_string()));
    assert_eq!(count_char("::1", ':'), 2);
    assert!(has_char("a/b", '/'));
    assert!(same("a", "a"));
    assert_eq!(to_lower("TCP"), "tcp");
}

#[test]
fn columns() {
    assert_eq!(padded_left("7", 3), "  7");
    assert_eq!(padded_right("7", 3), "7  ");
    assert_eq!(padded_right("long", 3), "long");
}
