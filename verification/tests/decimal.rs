use termproxy::decimal::{parse_decimal, push_decimal};

#[test]
fn parse_accepts_digits_and_plus() {
    assert_eq!(parse_decimal(b"0", 100), Some(0));
    assert_eq!(parse_decimal(b"+42", 100), Some(42));
    assert_eq!(parse_decimal(b"100", 100), Some(100));
}

#[test]
fn parse_refuses_bad_text_and_overflow() {
    assert_eq!(parse_decimal(b"", 100), None);
    assert_eq!(parse_decimal(b"+", 100), None);
    assert_eq!(parse_decimal(b"-1", 100), None);
    assert_eq!(parse_decimal(b"++1", 100), None);
    assert_eq!(parse_decimal(b"12 ", 100), None);
    assert_eq!(parse_decimal(b"101", 100), None);
    assert_eq!(parse_decimal(b"18446744073709551615", u64::MAX), Some(u64::MAX));
    assert_eq!(parse_decimal(b"18446744073709551616", u64::MAX), None);
}

#[test]
fn spelled_numbers_read_back() {
    for n in [0u64, 7, 10, 65535, 4096, u64::MAX] {
        let mut out = Vec::new();
        push_decimal(n, &mut out);
        assert_eq!(out, n.to_string().into_bytes());
        assert_eq!(parse_decimal(&out, u64::MAX), Some(n));
    }
}
