use security_api::decimal::{
    decimal_text_positive, decimal_wf, get_calculator_avg, get_round, is_positive, max_and_mean_above,
    min_and_mean_below, parse_decimal, zero_decimal, Decimal,
};

fn d(digits: i128, scale: i64) -> Decimal {
    Decimal { unscaled: digits.to_string(), scale }
}

fn big(unscaled: &str, scale: i64) -> Decimal {
    Decimal { unscaled: unscaled.to_string(), scale }
}

fn same(a: &Decimal, b: &Decimal) -> bool {
    a.unscaled == b.unscaled && a.scale == b.scale
}

#[test]
fn parse_decimal_keeps_digits_and_scale() {
    assert!(same(&parse_decimal("12.50").unwrap(), &d(1250, 2)));
    assert!(same(&parse_decimal("-0.5").unwrap(), &d(-5, 1)));
    assert!(same(&parse_decimal("1e3").unwrap(), &d(1, -3)));
    assert!(same(&parse_decimal("1234").unwrap(), &d(1234, 0)));
    assert!(parse_decimal("abc").is_none());
    assert!(parse_decimal("").is_none());
    assert!(parse_decimal("1,234").is_none());
}

#[test]
fn parse_decimal_keeps_any_size_and_scale() {
    assert!(same(&parse_decimal("0.00000000001").unwrap(), &d(1, 11)));
    assert!(same(&parse_decimal("100000000000000").unwrap(), &d(100000000000000, 0)));
    let huge = parse_decimal("123456789012345678901234567890.123456789").unwrap();
    assert!(same(&huge, &big("123456789012345678901234567890123456789", 9)));
}

#[test]
fn positive_text_detection() {
    assert!(decimal_text_positive("0.01"));
    assert!(decimal_text_positive("123"));
    assert!(!decimal_text_positive("0.00"));
    assert!(!decimal_text_positive("-3"));
    assert!(!decimal_text_positive("--"));
    assert!(!decimal_text_positive(""));
    assert!(decimal_text_positive("123456789012345678901234567890123456789012"));
    assert!(decimal_text_positive("1e-40"));
}

#[test]
fn sign_and_well_formedness() {
    assert!(is_positive(&d(1, 30)));
    assert!(!is_positive(&d(0, 4)));
    assert!(!is_positive(&d(-7, -3)));
    assert!(decimal_wf(&d(-120, 2)));
    assert!(decimal_wf(&zero_decimal()));
    assert!(!decimal_wf(&big("", 0)));
    assert!(!decimal_wf(&big("-", 0)));
    assert!(!decimal_wf(&big("1.5", 0)));
}

#[test]
fn mean_rounds_away_from_zero_to_four_places() {
    let avg = get_calculator_avg(&vec![d(10, 0), d(20, 0), d(25, 0)]);
    assert!(same(&avg, &d(183334, 4)));
    let neg = get_calculator_avg(&vec![d(-1, 0), d(-1, 0), d(-2, 0)]);
    assert!(same(&neg, &d(-13334, 4)));
    let mixed = get_calculator_avg(&vec![d(1050, 2), d(11, 0)]);
    assert!(same(&mixed, &d(107500, 4)));
    let empty = get_calculator_avg(&vec![]);
    assert!(same(&empty, &d(0, 4)));
}

#[test]
fn mean_of_large_and_finely_scaled_prices() {
    let avg = get_calculator_avg(&vec![big("1000000000000000000000000000000", 0), big("3000000000000000000000000000000", 0)]);
    assert!(same(&avg, &big("20000000000000000000000000000000000", 4)));
    let fine = get_calculator_avg(&vec![d(1, 12), d(3, 12)]);
    assert!(same(&fine, &d(1, 4)));
    let negative_scale = get_calculator_avg(&vec![d(1, -3), d(2, 0)]);
    assert!(same(&negative_scale, &d(5010000, 4)));
}

#[test]
fn round_divides_by_one_for_zero_count() {
    assert!(same(&get_round(&d(123456, 5), 0), &d(12346, 4)));
    assert!(same(&get_round(&d(10, 0), 3), &d(33334, 4)));
    assert!(same(&get_round(&d(-10, 0), 3), &d(-33334, 4)));
    assert!(same(&get_round(&d(9, 0), 3), &d(30000, 4)));
}

#[test]
fn extremes_and_side_means() {
    let closes = vec![d(10, 0), d(20, 0), d(25, 0), d(250, 1)];
    let avg = get_calculator_avg(&closes);
    assert!(same(&avg, &d(200000, 4)));
    let (max, above_mean) = max_and_mean_above(&avg, &closes);
    // the last of the equal highest prices is kept
    assert!(same(&max, &d(250, 1)));
    assert!(same(&above_mean, &d(250000, 4)));
    let (min, below_mean) = min_and_mean_below(&avg, &closes);
    assert!(same(&min, &d(10, 0)));
    assert!(same(&below_mean, &d(100000, 4)));
}
