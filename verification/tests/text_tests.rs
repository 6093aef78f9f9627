use osm_changesets::text::{
    chars_of, i32_to_decimal, i32_zero_padded_to_string, is_whitespace, parse_i32, trim_chars,
    u64_to_decimal, IntParseError,
};

fn parse(s: &str) -> Result<i32, IntParseError> {
    let cs = chars_of(s);
    parse_i32(&cs)
}

#[test]
fn decimal_of_unsigned() {
    assert_eq!(u64_to_decimal(0), "0");
    assert_eq!(u64_to_decimal(7), "7");
    assert_eq!(u64_to_decimal(1234567890), "1234567890");
    assert_eq!(u64_to_decimal(u64::MAX), u64::MAX.to_string());
}

#[test]
fn decimal_of_signed() {
    assert_eq!(i32_to_decimal(0), "0");
    assert_eq!(i32_to_decimal(-42), "-42");
    assert_eq!(i32_to_decimal(i32::MIN), "-2147483648");
    assert_eq!(i32_to_decimal(i32::MAX), "2147483647");
}

#[test]
fn zero_padding_matches_format() {
    for v in [0, 7, 42, 6543210, 123456789, 1234567890, -1, -5, -12345678, -123456789, i32::MIN, i32::MAX] {
        assert_eq!(i32_zero_padded_to_string(v, 9), format!("{:09}", v));
    }
    assert_eq!(i32_zero_padded_to_string(42, 9), "000000042");
    assert_eq!(i32_zero_padded_to_string(-5, 9), "-00000005");
    assert_eq!(i32_zero_padded_to_string(5, 0), "5");
}

#[test]
fn parse_accepts_signs_and_digits() {
    assert_eq!(parse("0"), Ok(0));
    assert_eq!(parse("+12"), Ok(12));
    assert_eq!(parse("-12"), Ok(-12));
    assert_eq!(parse("007"), Ok(7));
    assert_eq!(parse("2147483647"), Ok(i32::MAX));
    assert_eq!(parse("-2147483648"), Ok(i32::MIN));
}

#[test]
fn parse_errors_follow_std() {
    assert_eq!(parse(""), Err(IntParseError::Empty));
    assert_eq!(parse("+"), Err(IntParseError::InvalidDigit));
    assert_eq!(parse("-"), Err(IntParseError::InvalidDigit));
    assert_eq!(parse("12a"), Err(IntParseError::InvalidDigit));
    assert_eq!(parse(" 1"), Err(IntParseError::InvalidDigit));
    assert_eq!(parse("2147483648"), Err(IntParseError::PosOverflow));
    assert_eq!(parse("-2147483649"), Err(IntParseError::NegOverflow));
    // The first failure from the left decides, as in std.
    assert_eq!(parse("99999999999x"), Err(IntParseError::PosOverflow));
    assert_eq!(parse("9x9999999999"), Err(IntParseError::InvalidDigit));
    for s in ["", "+", "-", "12a", "2147483648", "-2147483649", "99999999999x", "1é", "+-1"] {
        assert_eq!(parse(s).is_ok(), s.parse::<i32>().is_ok(), "{:?}", s);
    }
}

#[test]
fn parse_reads_back_display() {
    for v in [0, 1, -1, 9, 10, -10, 6543210, i32::MIN, i32::MAX] {
        assert_eq!(parse(&i32_to_decimal(v)), Ok(v));
    }
}

#[test]
fn trim_removes_unicode_whitespace() {
    let t = trim_chars(&chars_of(" \t\u{a0}42\r\n\u{3000}"));
    assert_eq!(t.into_iter().collect::<String>(), "42");
    let t = trim_chars(&chars_of("  "));
    assert!(t.is_empty());
    let t = trim_chars(&chars_of("a b"));
    assert_eq!(t.into_iter().collect::<String>(), "a b");
    for c in ['\u{85}', '\u{2028}', ' ', '\t', 'a', '0', '\u{200b}'] {
        assert_eq!(is_whitespace(c), c.is_whitespace(), "{:?}", c);
    }
}

#[test]
fn error_messages_match_std() {
    for s in ["", "x", "99999999999", "-99999999999"] {
        let ours = parse(s).unwrap_err();
        assert_eq!(ours.message(), s.parse::<i32>().unwrap_err().to_string());
    }
    assert_eq!(IntParseError::Empty.message(), "cannot parse integer from empty string");
}
