//! The identifier normalizer and the text helpers behind it.

use bookbuddy::error::BookError;
use bookbuddy::ident::{classify_isbn, IsbnClass};
use bookbuddy::query::SearchQuery;
use bookbuddy::text::{parse_i64, parse_u32, split_commas, str_eq, trim_str};

#[test]
fn ten_digit_numeric_classifies_isbn10() {
    assert_eq!(classify_isbn("0306406152"), Ok(IsbnClass::Isbn10(306406152)));
    assert_eq!(classify_isbn("9999999999"), Ok(IsbnClass::Isbn10(9999999999)));
}

#[test]
fn separator_noise_is_dropped_before_classifying() {
    assert_eq!(classify_isbn("0-306-40615-2"), Ok(IsbnClass::Isbn10(306406152)));
    assert_eq!(classify_isbn(" 978 0306 40615 7 "), Ok(IsbnClass::Isbn13(9780306406157)));
}

#[test]
fn thirteen_digit_numeric_classifies_isbn13() {
    assert_eq!(classify_isbn("9780306406157"), Ok(IsbnClass::Isbn13(9780306406157)));
}

#[test]
fn other_lengths_are_unrecognized() {
    assert_eq!(classify_isbn(""), Ok(IsbnClass::Unrecognized));
    assert_eq!(classify_isbn("12345"), Ok(IsbnClass::Unrecognized));
    assert_eq!(classify_isbn("123456789012"), Ok(IsbnClass::Unrecognized));
    assert_eq!(classify_isbn("not an isbn at all"), Ok(IsbnClass::Unrecognized));
}

#[test]
fn right_length_but_not_numeric_is_malformed() {
    assert_eq!(classify_isbn("123456789X"), Err(BookError::MalformedIdentifier));
    assert_eq!(classify_isbn("12345678901Xx"), Err(BookError::MalformedIdentifier));
}

#[test]
fn parse_u32_reads_plain_numerals_only() {
    assert_eq!(parse_u32("336"), Some(336));
    assert_eq!(parse_u32("+1986"), Some(1986));
    assert_eq!(parse_u32("4294967295"), Some(u32::MAX));
    assert_eq!(parse_u32("4294967296"), None);
    assert_eq!(parse_u32("xii, 336"), None);
    assert_eq!(parse_u32(""), None);
    assert_eq!(parse_u32("-3"), None);
    assert_eq!(parse_u32(" 3"), None);
}

#[test]
fn parse_i64_reads_signed_numerals() {
    assert_eq!(parse_i64("0"), Some(0));
    assert_eq!(parse_i64("-42"), Some(-42));
    assert_eq!(parse_i64("+7"), Some(7));
    assert_eq!(parse_i64("9223372036854775807"), Some(i64::MAX));
    assert_eq!(parse_i64("9223372036854775808"), None);
    assert_eq!(parse_i64("-9223372036854775808"), Some(i64::MIN));
    assert_eq!(parse_i64("-9223372036854775809"), None);
    assert_eq!(parse_i64("12a"), None);
    assert_eq!(parse_i64("-"), None);
    assert_eq!(parse_i64(""), None);
}

#[test]
fn split_commas_keeps_empty_segments() {
    assert_eq!(split_commas("a,b"), vec!["a".to_string(), "b".to_string()]);
    assert_eq!(split_commas(",a,"), vec!["".to_string(), "a".to_string(), "".to_string()]);
    assert_eq!(split_commas(""), vec!["".to_string()]);
    assert_eq!(split_commas("solo"), vec!["solo".to_string()]);
}

#[test]
fn trim_strips_surrounding_whitespace() {
    assert_eq!(trim_str("  a b \t\n"), "a b");
    assert_eq!(trim_str("ab"), "ab");
    assert_eq!(trim_str(" \r\n "), "");
}

#[test]
fn trim_agrees_with_str_trim_on_unicode_whitespace() {
    let inputs = [
        "\u{000B}",
        "\u{000C}x\u{000C}",
        "\u{0085}\u{00A0}name\u{00A0}",
        "\u{1680}\u{2000}\u{200A}wide\u{2028}\u{2029}",
        "\u{202F}\u{205F}\u{3000}",
        "\u{200B}zero width space is not whitespace\u{200B}",
        "  plain  ",
    ];
    for s in inputs {
        assert_eq!(trim_str(s), s.trim());
    }
}

#[test]
fn str_to_opt_blank_input_means_absent() {
    assert_eq!(SearchQuery::str_to_opt("  Tolkien \n".to_string()), Some("Tolkien".to_string()));
    assert_eq!(SearchQuery::str_to_opt("   ".to_string()), None);
    assert_eq!(SearchQuery::str_to_opt("".to_string()), None);
    assert_eq!(SearchQuery::str_to_opt("\u{000B}".to_string()), None);
    assert_eq!(SearchQuery::str_to_opt("\u{00A0}\u{3000}".to_string()), None);
    assert_eq!(
        SearchQuery::str_to_opt("\u{2003}Le Guin\u{2003}".to_string()),
        Some("Le Guin".to_string())
    );
}

#[test]
fn str_eq_compares_by_characters() {
    assert!(str_eq("identifier", "identifier"));
    assert!(!str_eq("identifier", "title"));
    assert!(!str_eq("a", "ab"));
}
