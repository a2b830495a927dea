use termproxy::num::parse_decimal;

#[test]
fn parses_plain_numbers() {
    assert_eq!(parse_decimal(b"5"), Some(5));
    assert_eq!(parse_decimal(b"0"), Some(0));
    assert_eq!(parse_decimal(b"123"), Some(123));
    assert_eq!(parse_decimal(b"007"), Some(7));
}

#[test]
fn rejects_empty_and_non_digits() {
    assert_eq!(parse_decimal(b""), None);
    assert_eq!(parse_decimal(b"+5"), None);
    assert_eq!(parse_decimal(b"-5"), None);
    assert_eq!(parse_decimal(b"1x"), None);
    assert_eq!(parse_decimal(b" 1"), None);
}

#[test]
fn handles_the_largest_value_exactly() {
    assert_eq!(parse_decimal(b"18446744073709551615"), Some(usize::MAX));
    assert_eq!(parse_decimal(b"18446744073709551616"), None);
    assert_eq!(parse_decimal(b"99999999999999999999999"), None);
}
