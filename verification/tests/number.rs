#![allow(non_snake_case)]

use rproxy::number::{numberErrorText, parseNumber, pushDecimal, pushNumber, NumberError};
use rproxy::text::charsOf;

fn read(text: &str, radix: u32, max: u64) -> Result<u64, String> {
    parseNumber(&charsOf(text), radix, max).map_err(|e| numberErrorText(e).to_string())
}

#[test]
fn decimal_numbers_are_read_as_the_standard_library_reads_them() {
    for text in [
        "", "0", "007", "+5", "+", "-1", "12a", "65535", "65536", "99999999999999999999",
        "99999999999999999999x", "1x99999999999999999999", " 1", "++1", "\u{663}",
    ] {
        let expected = text.parse::<u16>().map(|n| n as u64).map_err(|e| e.to_string());
        assert_eq!(read(text, 10, u16::MAX as u64), expected, "{:?}", text);
        let expected = text.parse::<u64>().map_err(|e| e.to_string());
        assert_eq!(read(text, 10, u64::MAX), expected, "{:?}", text);
    }
}

#[test]
fn hexadecimal_numbers_are_read_as_the_standard_library_reads_them() {
    for text in [
        "", "0", "ff", "FF", "+1A", "g", "1g", "ffffffffffffffff", "10000000000000000",
        "10000000000000000z", "fffffffffffffffff", "0x10", "-f",
    ] {
        let expected = u64::from_str_radix(text, 16).map_err(|e| e.to_string());
        assert_eq!(read(text, 16, u64::MAX), expected, "{:?}", text);
    }
}

#[test]
fn every_number_error_has_an_input() {
    assert_eq!(parseNumber(&charsOf(""), 10, 9), Err(NumberError::Empty));
    assert_eq!(parseNumber(&charsOf("x"), 10, 9), Err(NumberError::InvalidDigit));
    assert_eq!(parseNumber(&charsOf("10"), 10, 9), Err(NumberError::Overflow));
    assert_eq!(parseNumber(&charsOf("9"), 10, 9), Ok(9));
}

#[test]
fn written_numbers_are_read_back() {
    for n in [0u64, 1, 9, 10, 255, 4096, 65535, 1234567890, u64::MAX] {
        let mut decimal = String::from("n=");
        pushDecimal(&mut decimal, n);
        assert_eq!(decimal, format!("n={}", n));
        assert_eq!(read(&decimal[2..], 10, u64::MAX), Ok(n));
        let mut hexadecimal = String::new();
        pushNumber(&mut hexadecimal, n, 16);
        assert_eq!(hexadecimal, format!("{:x}", n));
        assert_eq!(read(&hexadecimal, 16, u64::MAX), Ok(n));
    }
}
