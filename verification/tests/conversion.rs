use pool_claim::amount::decimal_text_of_grains;
use pool_claim::amount::grains_from_decimal;
use pool_claim::amount::parse_u64_literal;

#[test]
fn whole_amount_converts_exactly() {
    assert_eq!(grains_from_decimal("5.0", 9), Some(5_000_000_000));
    assert_eq!(grains_from_decimal("5", 9), Some(5_000_000_000));
    assert_eq!(grains_from_decimal("3.0", 9), Some(3_000_000_000));
}

#[test]
fn conversion_truncates_at_unit_boundary() {
    // 1.999999999 lands exactly on a grain: just below 2 * 10^9.
    assert_eq!(grains_from_decimal("1.999999999", 9), Some(1_999_999_999));
    // A tenth of a grain more still truncates down, never rounds up.
    assert_eq!(grains_from_decimal("1.9999999995", 9), Some(1_999_999_999));
}

#[test]
fn sub_smallest_unit_truncates_to_zero() {
    assert_eq!(grains_from_decimal("0", 9), Some(0));
    assert_eq!(grains_from_decimal("0.0000000004", 9), Some(0));
    assert_eq!(grains_from_decimal(".0000000009", 9), Some(0));
}

#[test]
fn fractional_forms_parse() {
    assert_eq!(grains_from_decimal(".5", 1), Some(5));
    assert_eq!(grains_from_decimal("5.", 0), Some(5));
    assert_eq!(grains_from_decimal("0.25", 2), Some(25));
    assert_eq!(grains_from_decimal("+2.5", 2), Some(250));
    assert_eq!(grains_from_decimal("007", 0), Some(7));
}

#[test]
fn negative_amount_truncates_toward_zero() {
    assert_eq!(grains_from_decimal("-1", 9), Some(0));
    assert_eq!(grains_from_decimal("-0.5", 9), Some(0));
}

#[test]
fn extra_fraction_digits_are_dropped() {
    assert_eq!(grains_from_decimal("7.999", 0), Some(7));
    assert_eq!(grains_from_decimal("1.23456", 2), Some(123));
}

#[test]
fn non_decimal_text_is_rejected() {
    assert_eq!(grains_from_decimal("abc", 9), None);
    assert_eq!(grains_from_decimal("", 9), None);
    assert_eq!(grains_from_decimal(".", 9), None);
    assert_eq!(grains_from_decimal("1.2.3", 9), None);
    assert_eq!(grains_from_decimal("1e3", 9), None);
    assert_eq!(grains_from_decimal("1 0", 9), None);
    assert_eq!(grains_from_decimal("--1", 9), None);
    assert_eq!(grains_from_decimal("NaN", 9), None);
}

#[test]
fn grain_overflow_is_rejected() {
    assert_eq!(
        grains_from_decimal("18446744073709551615", 0),
        Some(u64::MAX)
    );
    assert_eq!(grains_from_decimal("18446744073709551616", 0), None);
    assert_eq!(grains_from_decimal("18446744073709551615", 1), None);
    // A huge negative amount still truncates to zero grains.
    assert_eq!(grains_from_decimal("-99999999999999999999999", 0), Some(0));
}

#[test]
fn grains_render_as_decimal_text() {
    assert_eq!(decimal_text_of_grains(5_000_000_000, 9), "5.000000000");
    assert_eq!(decimal_text_of_grains(1_999_999_999, 9), "1.999999999");
    assert_eq!(decimal_text_of_grains(5, 9), "0.000000005");
    assert_eq!(decimal_text_of_grains(0, 9), "0.000000000");
    assert_eq!(decimal_text_of_grains(123, 0), "123");
    assert_eq!(decimal_text_of_grains(0, 0), "0");
}

#[test]
fn rendering_then_parsing_returns_the_grains() {
    for grains in [0u64, 1, 9, 10, 1_999_999_999, 5_000_000_000, u64::MAX] {
        for decimals in [0u32, 1, 9, 11, 30] {
            let text = decimal_text_of_grains(grains, decimals);
            assert_eq!(grains_from_decimal(&text, decimals), Some(grains));
        }
    }
}

#[test]
fn integer_literals_parse() {
    assert_eq!(parse_u64_literal("600"), Some(600));
    assert_eq!(parse_u64_literal("+42"), Some(42));
    assert_eq!(parse_u64_literal("0"), Some(0));
    assert_eq!(parse_u64_literal("18446744073709551615"), Some(u64::MAX));
}

#[test]
fn integer_literal_rejects_other_text() {
    assert_eq!(parse_u64_literal(""), None);
    assert_eq!(parse_u64_literal("+"), None);
    assert_eq!(parse_u64_literal(" 600"), None);
    assert_eq!(parse_u64_literal("600 "), None);
    assert_eq!(parse_u64_literal("6.0"), None);
    assert_eq!(parse_u64_literal("-600"), None);
    assert_eq!(parse_u64_literal("18446744073709551616"), None);
    assert_eq!(parse_u64_literal("SUCCESS"), None);
}
