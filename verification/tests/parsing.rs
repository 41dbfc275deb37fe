use header_parsing::Timestamp;
use header_parsing::Token;
use header_parsing::fmt_comma_delimited;
use header_parsing::from_comma_delimited;
use header_parsing::from_one_comma_delimited;
use header_parsing::from_one_raw_str;
use header_parsing::tm_from_str;

fn nov_07() -> Timestamp {
    Timestamp {
        year: 1994,
        month: 10,
        day: 7,
        hour: 8,
        minute: 48,
        second: 37,
        weekday: 0,
        utcoff: 0,
    }
}

#[test]
fn test_imf_fixdate() {
    assert_eq!(tm_from_str("Sun, 07 Nov 1994 08:48:37 GMT"), Some(nov_07()));
}

#[test]
fn test_rfc_850() {
    assert_eq!(tm_from_str("Sunday, 07-Nov-94 08:48:37 GMT"), Some(nov_07()));
}

#[test]
fn test_asctime() {
    assert_eq!(tm_from_str("Sun Nov  7 08:48:37 1994"), Some(nov_07()));
}

#[test]
fn all_three_formats_agree() {
    let a = tm_from_str("Sun, 07 Nov 1994 08:48:37 GMT");
    let b = tm_from_str("Sunday, 07-Nov-94 08:48:37 GMT");
    let c = tm_from_str("Sun Nov  7 08:48:37 1994");
    assert_eq!(a, Some(nov_07()));
    assert_eq!(a, b);
    assert_eq!(a, c);
}

#[test]
fn not_a_date_yields_none() {
    assert_eq!(tm_from_str("not a date"), None);
}

#[test]
fn date_rejects_near_misses() {
    // day out of range
    assert_eq!(tm_from_str("Sun, 32 Nov 1994 08:48:37 GMT"), None);
    // hour out of range
    assert_eq!(tm_from_str("Sun, 07 Nov 1994 24:48:37 GMT"), None);
    // unknown month name
    assert_eq!(tm_from_str("Sun, 07 Nop 1994 08:48:37 GMT"), None);
    // missing timezone name
    assert_eq!(tm_from_str("Sun, 07 Nov 1994 08:48:37"), None);
    // trailing text after the asctime year
    assert_eq!(tm_from_str("Sun Nov  7 08:48:37 1994 "), None);
    assert_eq!(tm_from_str(""), None);
}

#[test]
fn date_zone_is_symbolic() {
    // the timezone token is a name, not resolved; the offset is still zero
    let t = tm_from_str("Sun, 07 Nov 1994 08:48:37 UTC").unwrap();
    assert_eq!(t.utcoff, 0);
    assert_eq!(t, nov_07());
    // but a non-alphabetic zone token does not match
    assert_eq!(tm_from_str("Sun, 07 Nov 1994 08:48:37 +0000"), None);
}

#[test]
fn date_asctime_two_digit_day() {
    let t = tm_from_str("Thu Nov 17 08:48:37 1994").unwrap();
    assert_eq!(t.day, 17);
    assert_eq!(t.weekday, 4);
    // a zero day is rejected in both paddings
    assert_eq!(tm_from_str("Sun Nov  0 08:48:37 1994"), None);
    assert_eq!(tm_from_str("Sun Nov 00 08:48:37 1994"), None);
}

#[test]
fn date_rfc850_century_window() {
    let t = tm_from_str("Sunday, 07-Nov-94 08:48:37 GMT").unwrap();
    assert_eq!(t.year, 1994);
    let t = tm_from_str("Tuesday, 07-Nov-23 08:48:37 GMT").unwrap();
    assert_eq!(t.year, 2023);
}

#[test]
fn single_value_decodes_one_occurrence() {
    let raw = vec![b"42".to_vec()];
    assert_eq!(from_one_raw_str::<u64>(&raw), Some(42));
}

#[test]
fn single_value_rejects_wrong_framing() {
    let none: Vec<Vec<u8>> = vec![];
    assert_eq!(from_one_raw_str::<u64>(&none), None);
    let two = vec![b"1".to_vec(), b"2".to_vec()];
    assert_eq!(from_one_raw_str::<u64>(&two), None);
    // even for an item type that accepts any text
    let two = vec![b"a".to_vec(), b"b".to_vec()];
    assert_eq!(from_one_raw_str::<Token>(&two), None);
}

#[test]
fn single_value_rejects_invalid_utf8() {
    let raw = vec![vec![0xFF, 0xFE]];
    assert_eq!(from_one_raw_str::<u64>(&raw), None);
    // the UTF-8 check comes before the parse rule
    assert_eq!(from_one_raw_str::<Token>(&raw), None);
}

#[test]
fn single_value_rejects_unparsable_text() {
    let raw = vec![b"4x2".to_vec()];
    assert_eq!(from_one_raw_str::<u64>(&raw), None);
    let raw = vec![b"".to_vec()];
    assert_eq!(from_one_raw_str::<u64>(&raw), None);
    let raw = vec![b"-1".to_vec()];
    assert_eq!(from_one_raw_str::<u64>(&raw), None);
}

#[test]
fn comma_list_drops_unparsable_items() {
    // the middle token fails to parse and is silently dropped
    assert_eq!(from_one_comma_delimited::<u64>(b"1, x, 3"), Some(vec![1, 3]));
}

#[test]
fn comma_list_keeps_order_and_duplicates() {
    assert_eq!(from_one_comma_delimited::<u64>(b"3,1,3,2"), Some(vec![3, 1, 3, 2]));
}

#[test]
fn comma_list_trims_ascii_whitespace() {
    assert_eq!(from_one_comma_delimited::<u64>(b"  7  ,\t8\r\n, 9"), Some(vec![7, 8, 9]));
    assert_eq!(from_one_comma_delimited::<u64>(b"\x0C5"), Some(vec![5]));
}

#[test]
fn comma_list_never_fails_on_valid_utf8() {
    assert_eq!(from_one_comma_delimited::<u64>(b""), Some(vec![]));
    assert_eq!(from_one_comma_delimited::<u64>(b"x, y"), Some(vec![]));
}

#[test]
fn comma_list_rejects_invalid_utf8() {
    assert_eq!(from_one_comma_delimited::<u64>(&[0x31, 0xFF]), None);
}

#[test]
fn comma_list_rejects_overflowing_numbers() {
    // one past u64::MAX is dropped like any unparsable token
    assert_eq!(
        from_one_comma_delimited::<u64>(b"18446744073709551616, 18446744073709551615"),
        Some(vec![18446744073709551615])
    );
}

#[test]
fn comma_list_empty_tokens_as_strings() {
    let got = from_one_comma_delimited::<Token>(b"a, , c").unwrap();
    let want = vec![
        Token { text: String::from("a") },
        Token { text: String::from("") },
        Token { text: String::from("c") },
    ];
    assert_eq!(got, want);
}

#[test]
fn comma_list_from_raw_requires_one_occurrence() {
    let one = vec![b"1, 2".to_vec()];
    assert_eq!(from_comma_delimited::<u64>(&one), Some(vec![1, 2]));
    let none: Vec<Vec<u8>> = vec![];
    assert_eq!(from_comma_delimited::<u64>(&none), None);
    let two = vec![b"1".to_vec(), b"2".to_vec()];
    assert_eq!(from_comma_delimited::<u64>(&two), None);
}

#[test]
fn format_joins_with_comma_space() {
    let parts = vec![
        Token { text: String::from("a") },
        Token { text: String::from("b") },
        Token { text: String::from("c") },
    ];
    assert_eq!(fmt_comma_delimited(&parts), "a, b, c");
}

#[test]
fn format_single_and_empty() {
    let one = vec![Token { text: String::from("a") }];
    assert_eq!(fmt_comma_delimited(&one), "a");
    let none: Vec<Token> = vec![];
    assert_eq!(fmt_comma_delimited(&none), "");
}

#[test]
fn format_numbers_in_decimal() {
    let parts = vec![10u64, 0, 18446744073709551615];
    assert_eq!(fmt_comma_delimited(&parts), "10, 0, 18446744073709551615");
}

#[test]
fn decode_format_decode_round_trip() {
    let decoded = from_one_comma_delimited::<u64>(b"1,  2,3 ").unwrap();
    assert_eq!(decoded, vec![1, 2, 3]);
    let text = fmt_comma_delimited(&decoded);
    assert_eq!(text, "1, 2, 3");
    let again = from_one_comma_delimited::<u64>(text.as_bytes()).unwrap();
    assert_eq!(again, decoded);
}
