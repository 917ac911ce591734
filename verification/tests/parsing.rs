//! Locale decimal and date/time parsing.

use trading_core::parse_datetime;
use trading_core::parse_decimal;
use trading_core::SCALE;

#[test]
fn test_parse_decimal_simple() {
    assert_eq!(parse_decimal("123,45").unwrap(), 123_450_000);
}

#[test]
fn test_parse_decimal_with_thousands() {
    assert_eq!(parse_decimal("1.234,56").unwrap(), 1_234_560_000);
}

#[test]
fn test_parse_decimal_large_number() {
    assert_eq!(parse_decimal("600.822.115,84").unwrap(), 600_822_115_840_000);
}

#[test]
fn test_parse_decimal_integer_form() {
    assert_eq!(parse_decimal("124.080").unwrap(), 124_080 * SCALE);
}

#[test]
fn test_parse_decimal_trimming_and_edges() {
    assert_eq!(parse_decimal("  7,5\t").unwrap(), 7_500_000);
    assert_eq!(parse_decimal(",5").unwrap(), 500_000);
    assert_eq!(parse_decimal("5,").unwrap(), 5_000_000);
    // More than six fraction digits are truncated at the tick size.
    assert_eq!(parse_decimal("1,2345678").unwrap(), 1_234_567);
}

#[test]
fn test_parse_decimal_rejects_malformed() {
    assert!(parse_decimal("").is_err());
    assert!(parse_decimal("abc").is_err());
    assert!(parse_decimal(",").is_err());
    assert!(parse_decimal("1,2,3").is_err());
    assert!(parse_decimal("NOT_A_NUMBER").is_err());
    let e = parse_decimal("NOT_A_NUMBER").unwrap_err();
    assert!(e.message().contains("Failed to parse decimal 'NOT_A_NUMBER'"));
}

#[test]
fn test_parse_decimal_rejects_out_of_range() {
    // Twenty-five digits cannot fit the 64-bit fixed-point range.
    assert!(parse_decimal("1234567890123456789012345").is_err());
}

#[test]
fn test_parse_datetime_valid() {
    let dt = parse_datetime("30/12/2024", "18:20:00").unwrap();
    assert_eq!(dt.year, 2024);
    assert_eq!(dt.month, 12);
    assert_eq!(dt.day, 30);
    assert_eq!(dt.hour, 18);
    assert_eq!(dt.minute, 20);
    assert_eq!(dt.second, 0);
    assert_eq!(dt.timestamp_millis(), 1_735_582_800_000);
}

#[test]
fn test_parse_datetime_epoch() {
    let dt = parse_datetime("01/01/1970", "00:00:00").unwrap();
    assert_eq!(dt.timestamp_millis(), 0);
    let later = parse_datetime("02/01/1970", "00:00:01").unwrap();
    assert_eq!(later.timestamp_millis(), 86_400_000 + 1_000);
}

#[test]
fn test_parse_datetime_leap_day() {
    assert!(parse_datetime("29/02/2024", "12:00:00").is_ok());
    assert!(parse_datetime("29/02/2023", "12:00:00").is_err());
    assert!(parse_datetime("29/02/1900", "12:00:00").is_err());
    assert!(parse_datetime("29/02/2000", "12:00:00").is_ok());
}

#[test]
fn test_parse_datetime_invalid_date() {
    assert!(parse_datetime("32/12/2024", "18:20:00").is_err());
}

#[test]
fn test_parse_datetime_invalid_time() {
    assert!(parse_datetime("30/12/2024", "25:20:00").is_err());
}

#[test]
fn test_parse_datetime_invalid_date_format() {
    assert!(parse_datetime("2024/12/30", "18:20:00").is_err());
}
