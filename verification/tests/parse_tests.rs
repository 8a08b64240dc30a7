use catalog_harvest::decimal::Decimal;
use catalog_harvest::extract::parse_percent_text;
use catalog_harvest::parse::parse_decimal_text;

#[test]
fn parses_plain_decimals() {
    assert_eq!(parse_decimal_text("249.9", false), Some(Decimal::from_units(2_499_000)));
    assert_eq!(parse_decimal_text("100.0", false), Some(Decimal::from_units(1_000_000)));
    assert_eq!(parse_decimal_text("75", false), Some(Decimal::from_units(750_000)));
    assert_eq!(parse_decimal_text("-3", false), Some(Decimal::from_units(-30_000)));
    assert_eq!(parse_decimal_text("0.0001", false), Some(Decimal::from_units(1)));
    assert_eq!(parse_decimal_text("999999999.9999", false), Some(Decimal::from_units(9_999_999_999_999)));
}

#[test]
fn rejects_malformed_decimals() {
    assert_eq!(parse_decimal_text("abc", false), None);
    assert_eq!(parse_decimal_text("", false), None);
    assert_eq!(parse_decimal_text("5.", false), None);
    assert_eq!(parse_decimal_text(".5", false), None);
    assert_eq!(parse_decimal_text("-", false), None);
    assert_eq!(parse_decimal_text("1.2.3", false), None);
    assert_eq!(parse_decimal_text("1.23456", false), None);
    assert_eq!(parse_decimal_text("1234567890", false), None);
    assert_eq!(parse_decimal_text("12,5", false), None);
    assert_eq!(parse_decimal_text("1e3", false), None);
}

#[test]
fn comma_normalization() {
    assert_eq!(parse_decimal_text("12,5", true), Some(Decimal::from_units(125_000)));
    assert_eq!(parse_decimal_text("12.5", true), Some(Decimal::from_units(125_000)));
}

#[test]
fn percent_text_becomes_fraction() {
    // "12,5%" -> 12.5 -> fraction 0.125
    assert_eq!(parse_percent_text("12,5%"), Decimal::from_units(1250));
    assert_eq!(parse_percent_text("12.5%"), Decimal::from_units(1250));
    assert_eq!(parse_percent_text("12%"), Decimal::from_units(1200));
    assert_eq!(parse_percent_text("12"), Decimal::from_units(1200));
    // unparseable text falls back to zero
    assert_eq!(parse_percent_text("abc"), Decimal::from_units(0));
    assert_eq!(parse_percent_text(""), Decimal::from_units(0));
    assert_eq!(parse_percent_text("%"), Decimal::from_units(0));
}

#[test]
fn percentage_is_a_fraction_between_zero_and_one() {
    // the whole range is representable
    assert_eq!(parse_percent_text("0%"), Decimal::from_units(0));
    assert_eq!(parse_percent_text("100%"), Decimal::from_units(10_000));
    // a value outside [0, 1] is treated as unextractable
    assert_eq!(parse_percent_text("250%"), Decimal::from_units(0));
    assert_eq!(parse_percent_text("100.5%"), Decimal::from_units(0));
    assert_eq!(parse_percent_text("-5%"), Decimal::from_units(0));
}
