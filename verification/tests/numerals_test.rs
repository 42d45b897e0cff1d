//! Numeral parsing and formatting on concrete values.

use remote_monitor::numerals::{format_milli_one_decimal, parse_milli, parse_u64, u64_to_dec};

#[test]
fn parse_u64_plain() {
    assert_eq!(parse_u64(b"0"), Some(0));
    assert_eq!(parse_u64(b"123"), Some(123));
    assert_eq!(parse_u64(b"18446744073709551615"), Some(u64::MAX));
}

#[test]
fn parse_u64_rejects() {
    assert_eq!(parse_u64(b""), None);
    assert_eq!(parse_u64(b"12a"), None);
    assert_eq!(parse_u64(b"-5"), None);
    assert_eq!(parse_u64(b"18446744073709551616"), None);
    assert_eq!(parse_u64(b"99999999999999999999999"), None);
}

#[test]
fn parse_milli_decimals() {
    assert_eq!(parse_milli(b"3.2"), Some(3200));
    assert_eq!(parse_milli(b"0.10"), Some(100));
    assert_eq!(parse_milli(b"12"), Some(12000));
    assert_eq!(parse_milli(b"5."), Some(5000));
    assert_eq!(parse_milli(b".5"), Some(500));
    // Fraction digits beyond the third are ignored.
    assert_eq!(parse_milli(b"1.2345"), Some(1234));
}

#[test]
fn parse_milli_rejects() {
    assert_eq!(parse_milli(b""), None);
    assert_eq!(parse_milli(b"."), None);
    assert_eq!(parse_milli(b"1.2.3"), None);
    assert_eq!(parse_milli(b"abc"), None);
    assert_eq!(parse_milli(b"-1.0"), None);
}

#[test]
fn decimal_rendering() {
    assert_eq!(u64_to_dec(0), b"0".to_vec());
    assert_eq!(u64_to_dec(7), b"7".to_vec());
    assert_eq!(u64_to_dec(1234), b"1234".to_vec());
}

#[test]
fn one_decimal_rendering() {
    assert_eq!(format_milli_one_decimal(4300), b"4.3".to_vec());
    assert_eq!(format_milli_one_decimal(0), b"0.0".to_vec());
    // Rounded to the nearest tenth.
    assert_eq!(format_milli_one_decimal(4350), b"4.4".to_vec());
    assert_eq!(format_milli_one_decimal(12040), b"12.0".to_vec());
}
