use execute_in_dirs::decimal::{fmt_i32, fmt_u64, parse_u64, ParseError};
use execute_in_dirs::fizzbuzz::{fizzbuzz_line, fizzbuzz_lines, Error};

#[test]
fn unsigned_values_render_in_decimal() {
    assert_eq!(fmt_u64(0), b"0".to_vec());
    assert_eq!(fmt_u64(7), b"7".to_vec());
    assert_eq!(fmt_u64(10), b"10".to_vec());
    assert_eq!(fmt_u64(1234567890), b"1234567890".to_vec());
    assert_eq!(fmt_u64(u64::MAX), b"18446744073709551615".to_vec());
}

#[test]
fn signed_values_render_in_decimal() {
    assert_eq!(fmt_i32(0), b"0".to_vec());
    assert_eq!(fmt_i32(42), b"42".to_vec());
    assert_eq!(fmt_i32(-5), b"-5".to_vec());
    assert_eq!(fmt_i32(i32::MAX), b"2147483647".to_vec());
    assert_eq!(fmt_i32(i32::MIN), b"-2147483648".to_vec());
}

#[test]
fn decimal_strings_parse_exactly() {
    assert_eq!(parse_u64(b"0").unwrap(), 0);
    assert_eq!(parse_u64(b"42").unwrap(), 42);
    assert_eq!(parse_u64(b"042").unwrap(), 42);
    assert_eq!(parse_u64(b"18446744073709551615").unwrap(), u64::MAX);
}

#[test]
fn bad_decimal_strings_are_rejected() {
    assert!(matches!(parse_u64(b""), Err(ParseError::Empty)));
    assert!(matches!(parse_u64(b"12a"), Err(ParseError::InvalidDigit)));
    assert!(matches!(parse_u64(b"-3"), Err(ParseError::InvalidDigit)));
    assert!(matches!(parse_u64(b" 3"), Err(ParseError::InvalidDigit)));
    assert!(matches!(parse_u64(b"18446744073709551616"), Err(ParseError::Overflow)));
}

#[test]
fn rendering_then_parsing_returns_the_value() {
    for n in [0u64, 1, 9, 10, 99, 100, 12345, u64::MAX] {
        assert_eq!(parse_u64(&fmt_u64(n)).unwrap(), n);
    }
}

#[test]
fn lines_follow_the_counting_rules() {
    assert_eq!(fizzbuzz_line(1), b"1\n".to_vec());
    assert_eq!(fizzbuzz_line(2), b"2\n".to_vec());
    assert_eq!(fizzbuzz_line(3), b"fizz\n".to_vec());
    assert_eq!(fizzbuzz_line(5), b"buzz\n".to_vec());
    assert_eq!(fizzbuzz_line(6), b"fizz\n".to_vec());
    assert_eq!(fizzbuzz_line(10), b"buzz\n".to_vec());
    assert_eq!(fizzbuzz_line(15), b"FizzBuzz!\n".to_vec());
    assert_eq!(fizzbuzz_line(30), b"FizzBuzz!\n".to_vec());
    assert_eq!(fizzbuzz_line(98), b"98\n".to_vec());
}

#[test]
fn all_lines_up_to_a_bound() {
    let lines = fizzbuzz_lines(15);
    assert_eq!(lines.len(), 15);
    assert_eq!(lines[0], b"1\n".to_vec());
    assert_eq!(lines[2], b"fizz\n".to_vec());
    assert_eq!(lines[4], b"buzz\n".to_vec());
    assert_eq!(lines[14], b"FizzBuzz!\n".to_vec());
    assert!(fizzbuzz_lines(0).is_empty());
}

#[test]
fn counting_error_reasons_render() {
    assert_eq!(Error::ArgumentMissing.reason(), b"not enough arguments specified".to_vec());
    assert_eq!(Error::ArgumentInvalid.reason(), b"specified argument is invalid".to_vec());
    assert_eq!(Error::IO.reason(), b"io error".to_vec());
}

#[test]
fn failed_parses_are_invalid_arguments() {
    assert!(matches!(Error::from_parse(ParseError::Empty), Error::ArgumentInvalid));
    assert!(matches!(Error::from_parse(ParseError::InvalidDigit), Error::ArgumentInvalid));
    assert!(matches!(Error::from_parse(ParseError::Overflow), Error::ArgumentInvalid));
}
