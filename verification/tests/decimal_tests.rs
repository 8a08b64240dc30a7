use catalog_harvest::decimal::Decimal;

#[test]
fn round2_truncates_to_hundredths() {
    // 1.2345 rounds to 1.23
    assert_eq!(Decimal::from_units(12345).round2(), Decimal::from_units(12300));
    // 1.2350 rounds half away from zero to 1.24
    assert_eq!(Decimal::from_units(12350).round2(), Decimal::from_units(12400));
    // -1.2350 rounds half away from zero to -1.24
    assert_eq!(Decimal::from_units(-12350).round2(), Decimal::from_units(-12400));
    // already two decimals: unchanged
    assert_eq!(Decimal::from_units(9000000).round2(), Decimal::from_units(9000000));
}

#[test]
fn round2_is_idempotent_on_samples() {
    for units in [0i128, 1, 49, 50, 51, 12345, 12350, -12345, -12350, 999_999_999_9999] {
        let once = Decimal::from_units(units).round2();
        let twice = once.round2();
        assert_eq!(once, twice);
    }
}

#[test]
fn two_decimal_text() {
    assert_eq!(Decimal::from_units(9000000).to_2dp_string(), "900.00");
    assert_eq!(Decimal::from_units(1200).to_2dp_string(), "0.12");
    assert_eq!(Decimal::from_units(-5000).to_2dp_string(), "-0.50");
    assert_eq!(Decimal::from_units(0).to_2dp_string(), "0.00");
    assert_eq!(Decimal::from_units(111100).to_2dp_string(), "11.11");
    assert_eq!(Decimal::from_units(12345).to_2dp_string(), "1.23");
    assert_eq!(Decimal::from_units(10_000_000_000).to_2dp_string(), "1000000.00");
}

#[test]
fn derived_quantity_rounds_at_its_own_step() {
    // 0.12 * 75 * 100 = 900.00
    let pct = Decimal::from_units(1200);
    let vol = Decimal::from_units(750000);
    assert_eq!(pct.mul100_round2(&vol), Decimal::from_units(9000000));
    // 0.125 * 75 * 100 = 937.5 -> 937.50
    let pct = Decimal::from_units(1250);
    assert_eq!(pct.mul100_round2(&vol), Decimal::from_units(9375000));
}

#[test]
fn derived_unit_price_rounds_at_its_own_step() {
    // 100 / 900 * 100 = 11.111... -> 11.11
    let price = Decimal::from_units(1000000);
    let alc = Decimal::from_units(9000000);
    assert_eq!(price.div100_round2(&alc), Decimal::from_units(111100));
    // 100 / 800 * 100 = 12.5 -> 12.50
    let alc = Decimal::from_units(8000000);
    assert_eq!(price.div100_round2(&alc), Decimal::from_units(125_000));
}
