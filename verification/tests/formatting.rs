//! Tests of share formatting and decimal rendering.

use mongodb_oplog_stats::args::limit_to_use;
use mongodb_oplog_stats::share::format_share_value;
use mongodb_oplog_stats::share::share_hundredths;
use mongodb_oplog_stats::text::u64_to_dec;

#[test]
fn decimal_rendering_matches_the_number() {
    assert_eq!(u64_to_dec(0), "0");
    assert_eq!(u64_to_dec(7), "7");
    assert_eq!(u64_to_dec(10), "10");
    assert_eq!(u64_to_dec(1234567890), "1234567890");
    assert_eq!(u64_to_dec(u64::MAX), "18446744073709551615");
}

#[test]
fn share_of_four_thousandths_is_below_threshold() {
    // 4 of 100000 bytes: a share of exactly 0.004 percent
    assert_eq!(format_share_value(4, 100_000), "< 0.01");
}

#[test]
fn share_of_fifteen_thousandths_rounds_up() {
    // 15 of 100000 bytes: a share of exactly 0.015 percent
    assert_eq!(format_share_value(15, 100_000), "0.02");
}

#[test]
fn share_at_the_threshold_is_rendered_numerically() {
    // 10 of 100000 bytes: a share of exactly 0.01 percent
    assert_eq!(format_share_value(10, 100_000), "0.01");
}

#[test]
fn share_just_below_the_threshold_is_not() {
    // 9 of 100000 bytes: a share of 0.009 percent
    assert_eq!(format_share_value(9, 100_000), "< 0.01");
}

#[test]
fn whole_share_renders_as_one_hundred() {
    assert_eq!(format_share_value(170, 170), "100.00");
    assert_eq!(format_share_value(0, 0), "< 0.01");
}

#[test]
fn fraction_digits_are_zero_padded() {
    // 150 of 170 bytes is 88.235...: rendered with two decimals
    assert_eq!(format_share_value(150, 170), "88.24");
    // 1 of 99 is 1.0101...: the fraction keeps its leading zero
    assert_eq!(format_share_value(1, 99), "1.01");
    // 1 of 20 is exactly 5.00
    assert_eq!(format_share_value(1, 20), "5.00");
}

#[test]
fn share_hundredths_rounds_half_up() {
    // 3 of 20000 is 0.015 percent: 1.5 hundredths rounds up to 2
    assert_eq!(share_hundredths(3, 20_000), 2);
    // 1 of 8000 is 0.0125 percent: 1.25 hundredths rounds down to 1
    assert_eq!(share_hundredths(1, 8_000), 1);
    assert_eq!(share_hundredths(170, 170), 10_000);
}

#[test]
fn explicit_limit_wins_over_the_estimate() {
    assert_eq!(limit_to_use(Some(3), 100), 3);
    assert_eq!(limit_to_use(None, 100), 100);
    assert_eq!(limit_to_use(Some(0), 100), 0);
}
