use honeybear::decimal::{
    checked_investment_amount, div_wide, mul_wide, parse_number, render, saturating_product,
    saturating_quotient, saturating_sum, SCALE,
};

#[test]
fn scale_is_a_million() {
    assert_eq!(SCALE, 1_000_000);
}

#[test]
fn products_are_cut_toward_zero() {
    assert_eq!(mul_wide(1_500_000, 2_000_000), 3_000_000);
    assert_eq!(mul_wide(1, 999_999), 0);
    assert_eq!(mul_wide(-1, 999_999), 0);
    assert_eq!(mul_wide(-1_500_000, 333_333), -499_999);
    assert_eq!(mul_wide(-1_500_000, -333_333), 499_999);
    assert_eq!(mul_wide(0, i64::MIN), 0);
    assert_eq!(mul_wide(i64::MIN, i64::MIN), (1i128 << 126) / 1_000_000);
    assert_eq!(saturating_product(i64::MAX, 2_000_000), i64::MAX);
    assert_eq!(saturating_product(i64::MIN, 2_000_000), i64::MIN);
    assert_eq!(saturating_product(3_000_000, -2_000_000), -6_000_000);
}

#[test]
fn quotients_are_cut_toward_zero() {
    assert_eq!(div_wide(1_000_000, 3_000_000), 333_333);
    assert_eq!(div_wide(-1_000_000, 3_000_000), -333_333);
    assert_eq!(div_wide(1_000_000, -3_000_000), -333_333);
    assert_eq!(div_wide(-2_000_000, -3_000_000), 666_666);
    assert_eq!(div_wide(0, -5), 0);
    assert_eq!(saturating_quotient(i64::MAX, 1), i64::MAX);
    assert_eq!(saturating_quotient(i64::MIN, 1), i64::MIN);
    assert_eq!(saturating_quotient(i64::MIN, -1), i64::MAX);
    assert_eq!(saturating_quotient(1_100_000, 1_250_000), 880_000);
}

#[test]
fn sums_stop_at_the_bound() {
    assert_eq!(saturating_sum(i64::MAX, 1), i64::MAX);
    assert_eq!(saturating_sum(i64::MIN, -1), i64::MIN);
    assert_eq!(saturating_sum(-4, 9), 5);
}

#[test]
fn investment_amounts() {
    // buy 10 at 100 with a fee of 2
    assert_eq!(
        checked_investment_amount(10_000_000, 100_000_000, 2_000_000, true),
        Some(-1_002_000_000)
    );
    // sell the same
    assert_eq!(
        checked_investment_amount(10_000_000, 100_000_000, 2_000_000, false),
        Some(998_000_000)
    );
    assert_eq!(checked_investment_amount(i64::MAX, i64::MAX, 0, true), None);
    assert_eq!(checked_investment_amount(0, 0, i64::MIN, true), None);
    assert_eq!(checked_investment_amount(0, 0, i64::MIN, false), None);
    assert_eq!(checked_investment_amount(0, 0, i64::MAX, true), Some(-i64::MAX));
}

#[test]
fn numbers_are_read_from_text() {
    assert_eq!(parse_number("0"), 0);
    assert_eq!(parse_number("12"), 12_000_000);
    assert_eq!(parse_number("-10"), -10_000_000);
    assert_eq!(parse_number("+7.5"), 7_500_000);
    assert_eq!(parse_number("5.50"), 5_500_000);
    assert_eq!(parse_number("-5.5"), -5_500_000);
    assert_eq!(parse_number(".5"), 500_000);
    assert_eq!(parse_number("5."), 5_000_000);
    assert_eq!(parse_number("0.000001"), 1);
    assert_eq!(parse_number("0.0000019"), 1);
    assert_eq!(parse_number("-0.0000019"), -1);
    assert_eq!(parse_number("007"), 7_000_000);
    assert_eq!(parse_number("1.123456789"), 1_123_456);
}

#[test]
fn what_is_no_number_reads_as_zero() {
    for s in ["", ".", "-", "+", "abc", "1e3", "1,5", " 1", "1 ", "--1", "1.2.3", "٣", "1-", "inf", "NaN"] {
        assert_eq!(parse_number(s), 0, "{s:?}");
    }
}

#[test]
fn numbers_too_large_stop_at_the_bound() {
    assert_eq!(parse_number("9223372036854.775807"), i64::MAX);
    assert_eq!(parse_number("9223372036854.775808"), i64::MAX);
    assert_eq!(parse_number("-9223372036854.775808"), i64::MIN);
    assert_eq!(parse_number("-9223372036854.775809"), i64::MIN);
    assert_eq!(parse_number("9223372036854.775806"), i64::MAX - 1);
    assert_eq!(parse_number("99999999999999999999999999999999999999999999"), i64::MAX);
    assert_eq!(parse_number("-99999999999999999999999999999999999999999999.5"), i64::MIN);
}

#[test]
fn numbers_are_written_without_trailing_zeros() {
    assert_eq!(render(0), "0");
    assert_eq!(render(100_000_000), "100");
    assert_eq!(render(-5_500_000), "-5.5");
    assert_eq!(render(1), "0.000001");
    assert_eq!(render(-1), "-0.000001");
    assert_eq!(render(250_000), "0.25");
    assert_eq!(render(10_000_000), "10");
    assert_eq!(render(1_050_000), "1.05");
    assert_eq!(render(-1_505_000_000), "-1505");
    assert_eq!(render(i64::MAX), "9223372036854.775807");
    assert_eq!(render(i64::MIN), "-9223372036854.775808");
}

#[test]
fn writing_then_reading_gives_the_number_back() {
    for x in [0, 1, -1, 999_999, 1_000_000, -1_000_001, 123_456_789_012, i64::MAX, i64::MIN, -42_000_000] {
        assert_eq!(parse_number(&render(x)), x);
    }
}
