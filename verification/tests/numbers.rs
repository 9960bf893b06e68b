use bank_record_converter::decimal::{digit_of, parse_u64, push_decimal};
use bank_record_converter::endian::{push_be, read_be};
use bank_record_converter::text::{chars_of, push_all, push_str, same_text, starts_with};

fn decimal(n: u64) -> String {
    let mut out = Vec::new();
    push_decimal(&mut out, n);
    out.into_iter().collect()
}

fn parse(s: &str) -> Option<u64> {
    parse_u64(&chars_of(s))
}

#[test]
fn decimal_text_of_numbers() {
    assert_eq!(decimal(0), "0");
    assert_eq!(decimal(7), "7");
    assert_eq!(decimal(10), "10");
    assert_eq!(decimal(1633036860000), "1633036860000");
    assert_eq!(decimal(u64::MAX), "18446744073709551615");
    let mut out = vec!['n', '='];
    push_decimal(&mut out, 42);
    assert_eq!(out, vec!['n', '=', '4', '2']);
}

#[test]
fn decimal_parse() {
    assert_eq!(parse("0"), Some(0));
    assert_eq!(parse("+0"), Some(0));
    assert_eq!(parse("0012"), Some(12));
    assert_eq!(parse("18446744073709551615"), Some(u64::MAX));
    assert_eq!(parse("000018446744073709551615"), Some(u64::MAX));
    assert_eq!(parse("18446744073709551616"), None);
    assert_eq!(parse("99999999999999999999999"), None);
    assert_eq!(parse(""), None);
    assert_eq!(parse("+"), None);
    assert_eq!(parse("-1"), None);
    assert_eq!(parse("++1"), None);
    assert_eq!(parse("1 "), None);
    assert_eq!(parse(" 1"), None);
    assert_eq!(parse("1_000"), None);
    assert_eq!(parse("١٢"), None);
    assert_eq!(parse("1844674407370955161x"), None);
}

#[test]
fn decimal_parse_agrees_with_the_standard_library() {
    for s in ["", "+", "-", "+5", "-5", "05", "5+", "1e3", "18446744073709551615", "0x1"] {
        assert_eq!(parse(s), s.parse::<u64>().ok());
    }
}

#[test]
fn decimal_round_trip() {
    for n in [0u64, 1, 9, 10, 99, 100, 12345, u64::MAX - 1, u64::MAX] {
        assert_eq!(parse(&decimal(n)), Some(n));
        assert_eq!(decimal(n), n.to_string());
    }
}

#[test]
fn decimal_digits() {
    assert_eq!(digit_of('0'), Some(0));
    assert_eq!(digit_of('9'), Some(9));
    assert_eq!(digit_of('a'), None);
    assert_eq!(digit_of('/'), None);
    assert_eq!(digit_of(':'), None);
}

#[test]
fn endian_read_and_write() {
    let bytes = [0u8, 0x12, 0x34, 0x56, 0x78, 0x9A, 0xBC, 0xDE, 0xF0, 0xFF];
    assert_eq!(read_be(&bytes, 1, 8), 0x123456789ABCDEF0);
    assert_eq!(read_be(&bytes, 1, 4), 0x12345678);
    assert_eq!(read_be(&bytes, 9, 1), 0xFF);
    assert_eq!(read_be(&bytes, 3, 0), 0);
    let mut out = vec![9u8];
    push_be(&mut out, 0x123456789ABCDEF0, 8);
    push_be(&mut out, 46, 4);
    push_be(&mut out, 0x1_0000_0001, 4);
    assert_eq!(
        out,
        vec![9, 0x12, 0x34, 0x56, 0x78, 0x9A, 0xBC, 0xDE, 0xF0, 0, 0, 0, 46, 0, 0, 0, 1]
    );
    for n in [0u64, 1, 255, 256, 0xDEADBEEF, u64::MAX] {
        let mut b = Vec::new();
        push_be(&mut b, n, 8);
        assert_eq!(b, n.to_be_bytes());
        assert_eq!(read_be(&b, 0, 8), n);
    }
}

#[test]
fn text_prefixes() {
    let s = chars_of("TX_ID: 5");
    assert!(starts_with(&s, &chars_of("TX_ID")));
    assert!(starts_with(&s, &chars_of("")));
    assert!(starts_with(&s, &s));
    assert!(!starts_with(&s, &chars_of("TX_TYPE")));
    assert!(!starts_with(&chars_of("TX"), &chars_of("TX_ID")));
    assert!(same_text(&s, &chars_of("TX_ID: 5")));
    assert!(!same_text(&s, &chars_of("TX_ID: 6")));
    assert!(!same_text(&s, &chars_of("TX_ID: 55")));
    let mut out = vec!['a'];
    push_all(&mut out, &['b', 'c']);
    push_str(&mut out, "dé");
    assert_eq!(out, vec!['a', 'b', 'c', 'd', 'é']);
}
