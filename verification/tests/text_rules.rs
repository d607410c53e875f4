use trust_breaker::text::{
    char_is_whitespace, contains, contains_char, decimal_text, lines, parse_u32, replace_char, split, split_once,
    starts_with, strip_prefix, trim,
};

#[test]
fn split_gives_the_pieces_between_separators() {
    assert_eq!(split("a/b//c", '/'), vec!["a", "b", "", "c"]);
    assert_eq!(split("", '/'), vec![""]);
    assert_eq!(split("/", '/'), vec!["", ""]);
}

#[test]
fn split_once_cuts_at_the_first_separator() {
    assert_eq!(split_once("1:2:3", ':'), Some(("1".to_string(), "2:3".to_string())));
    assert_eq!(split_once("abc", ':'), None);
}

#[test]
fn prefixes_are_found_and_taken_off() {
    assert!(starts_with("pkg:rpm/redhat", "pkg:"));
    assert!(!starts_with("pk", "pkg:"));
    assert_eq!(strip_prefix("pkg:x", "pkg:"), Some("x".to_string()));
    assert_eq!(strip_prefix("x", "pkg:"), None);
}

#[test]
fn texts_within_texts_are_found() {
    assert!(contains("** REJECTED **", "REJECTED"));
    assert!(contains("abc", ""));
    assert!(!contains("ab", "abc"));
    assert!(contains_char("1.0 < 1.1", '<'));
    assert!(!contains_char("1.0 = 1.0", '<'));
}

#[test]
fn characters_are_replaced_everywhere() {
    assert_eq!(replace_char("a:b:c", ':', '_'), "a_b_c");
    assert_eq!(replace_char("", ':', '_'), "");
}

#[test]
fn white_space_is_trimmed_beyond_ascii_too() {
    assert_eq!(trim("  a b\t\r\n"), "a b");
    assert_eq!(trim("\u{00a0}\u{3000}x\u{2003}"), "x");
    assert_eq!(trim(" \t "), "");
    assert_eq!(trim("x"), "x");
}

#[test]
fn lines_drop_a_carriage_return_and_a_last_empty_line() {
    assert_eq!(lines("a\r\nb\nc"), vec!["a", "b", "c"]);
    assert_eq!(lines("a\n\nb\n"), vec!["a", "", "b"]);
    assert_eq!(lines("a\r"), vec!["a\r"]);
    assert!(lines("").is_empty());
}

#[test]
fn numbers_are_read_within_their_range() {
    assert_eq!(parse_u32("0"), Some(0));
    assert_eq!(parse_u32("+17"), Some(17));
    assert_eq!(parse_u32("4294967295"), Some(u32::MAX));
    assert_eq!(parse_u32("4294967296"), None);
    assert_eq!(parse_u32(""), None);
    assert_eq!(parse_u32("+"), None);
    assert_eq!(parse_u32("-1"), None);
    assert_eq!(parse_u32("1a"), None);
}

#[test]
fn a_number_that_is_written_reads_back() {
    for n in [0usize, 7, 10, 99, 100, 4294967295] {
        assert_eq!(decimal_text(n), n.to_string());
        assert_eq!(parse_u32(&decimal_text(n)), Some(n as u32));
    }
}

#[test]
fn white_space_is_what_unicode_says() {
    for c in '\0'..=char::MAX {
        assert_eq!(char_is_whitespace(c), c.is_whitespace());
    }
}
