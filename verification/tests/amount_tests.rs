use ruv_monitor::amount::dec_string_u128;
use ruv_monitor::amount::format_e4;
use ruv_monitor::amount::format_e4_round2;
use ruv_monitor::amount::format_e7_round0;
use ruv_monitor::amount::format_e7_round2;
use ruv_monitor::amount::parse_amount_e7;

#[test]
fn parses_whole_amounts() {
    assert_eq!(parse_amount_e7("1000000"), 10_000_000_000_000);
    assert_eq!(parse_amount_e7("500"), 5_000_000_000);
    assert_eq!(parse_amount_e7("0"), 0);
}

#[test]
fn parses_fractional_amounts() {
    assert_eq!(parse_amount_e7("0.45"), 4_500_000);
    assert_eq!(parse_amount_e7("95.00"), 950_000_000);
    assert_eq!(parse_amount_e7(".5"), 5_000_000);
    assert_eq!(parse_amount_e7("5."), 50_000_000);
    assert_eq!(parse_amount_e7("0.0000001"), 1);
}

#[test]
fn extra_fraction_digits_are_dropped() {
    assert_eq!(parse_amount_e7("0.123456789"), 1_234_567);
}

#[test]
fn malformed_amounts_parse_to_zero() {
    assert_eq!(parse_amount_e7(""), 0);
    assert_eq!(parse_amount_e7("."), 0);
    assert_eq!(parse_amount_e7("1.2.3"), 0);
    assert_eq!(parse_amount_e7("abc"), 0);
    assert_eq!(parse_amount_e7("-3"), 0);
    assert_eq!(parse_amount_e7("1e5"), 0);
    assert_eq!(parse_amount_e7(" 1"), 0);
}

#[test]
fn oversized_amounts_parse_to_zero() {
    assert_eq!(parse_amount_e7("99999999999999999999"), 0);
    // just over u64::MAX in e7 units
    assert_eq!(parse_amount_e7("1844674407370.9551616"), 0);
    // the largest representable value
    assert_eq!(parse_amount_e7("1844674407370.9551615"), u64::MAX);
}

#[test]
fn renders_decimals() {
    assert_eq!(dec_string_u128(0), "0");
    assert_eq!(dec_string_u128(7), "7");
    assert_eq!(dec_string_u128(85500), "85500");
}

#[test]
fn renders_e4_with_four_places() {
    assert_eq!(format_e4(855_000_000), "85500.0000");
    assert_eq!(format_e4(4_500), "0.4500");
    assert_eq!(format_e4(0), "0.0000");
    assert_eq!(format_e4(12_345), "1.2345");
}

#[test]
fn renders_e4_rounded_to_two_places() {
    assert_eq!(format_e4_round2(950_000), "95.00");
    assert_eq!(format_e4_round2(950_051), "95.01");
    assert_eq!(format_e4_round2(950_049), "95.00");
}

#[test]
fn renders_e7_rounded() {
    assert_eq!(format_e7_round0(5_000_000_000), "500");
    assert_eq!(format_e7_round0(5_000_000_001), "500");
    assert_eq!(format_e7_round0(5_005_000_000), "501");
    assert_eq!(format_e7_round2(10_000_000_000_000), "1000000.00");
    assert_eq!(format_e7_round2(10_000_000_050_000), "1000000.01");
}
