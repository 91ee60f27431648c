use partner_sales::amount::{parse_amount, FRACTION_DIGITS};

#[test]
fn two_fraction_digits_are_padded_to_six() {
    assert_eq!(parse_amount("10.50"), Some(10_500_000));
    assert_eq!(parse_amount("5.00"), Some(5_000_000));
    assert_eq!(parse_amount("2.25"), Some(2_250_000));
}

#[test]
fn whole_number_without_point() {
    assert_eq!(parse_amount("7"), Some(7_000_000));
    assert_eq!(parse_amount("0"), Some(0));
    assert_eq!(parse_amount("007"), Some(7_000_000));
}

#[test]
fn six_fraction_digits_are_kept_exactly() {
    assert_eq!(FRACTION_DIGITS, 6);
    assert_eq!(parse_amount("0.000001"), Some(1));
    assert_eq!(parse_amount("1.234567"), Some(1_234_567));
}

#[test]
fn seven_fraction_digits_are_refused() {
    assert_eq!(parse_amount("1.2345678"), None);
    assert_eq!(parse_amount("1.0000000"), None);
}

#[test]
fn signs_are_read() {
    assert_eq!(parse_amount("-3.5"), Some(-3_500_000));
    assert_eq!(parse_amount("+3.5"), Some(3_500_000));
    assert_eq!(parse_amount("-0"), Some(0));
}

#[test]
fn digits_on_one_side_of_the_point_are_enough() {
    assert_eq!(parse_amount(".5"), Some(500_000));
    assert_eq!(parse_amount("5."), Some(5_000_000));
    assert_eq!(parse_amount("-.25"), Some(-250_000));
}

#[test]
fn text_without_a_digit_is_refused() {
    assert_eq!(parse_amount(""), None);
    assert_eq!(parse_amount("."), None);
    assert_eq!(parse_amount("-"), None);
    assert_eq!(parse_amount("+"), None);
    assert_eq!(parse_amount("-."), None);
}

#[test]
fn other_characters_are_refused() {
    assert_eq!(parse_amount("abc"), None);
    assert_eq!(parse_amount("1e5"), None);
    assert_eq!(parse_amount(" 1"), None);
    assert_eq!(parse_amount("1 "), None);
    assert_eq!(parse_amount("1,5"), None);
    assert_eq!(parse_amount("1.5.2"), None);
    assert_eq!(parse_amount("--1"), None);
    assert_eq!(parse_amount("1-"), None);
    assert_eq!(parse_amount("NaN"), None);
    assert_eq!(parse_amount("inf"), None);
}

#[test]
fn characters_outside_ascii_are_refused() {
    assert_eq!(parse_amount("１２"), None);
    assert_eq!(parse_amount("1.5€"), None);
}

#[test]
fn largest_and_smallest_amounts() {
    assert_eq!(parse_amount("9223372036854.775807"), Some(i64::MAX));
    assert_eq!(parse_amount("-9223372036854.775808"), Some(i64::MIN));
    assert_eq!(parse_amount("-9223372036854.775807"), Some(-i64::MAX));
}

#[test]
fn amounts_out_of_range_are_refused() {
    assert_eq!(parse_amount("9223372036854.775808"), None);
    assert_eq!(parse_amount("-9223372036854.775809"), None);
    assert_eq!(parse_amount("9223372036855"), None);
    assert_eq!(parse_amount("18446744073709.551616"), None);
    assert_eq!(parse_amount("99999999999999999999999999999999999999"), None);
    assert_eq!(parse_amount("-99999999999999999999999999999999999999.5"), None);
}

#[test]
fn leading_zeros_do_not_overflow() {
    assert_eq!(parse_amount("0000000000000000000000000000000000000001.5"), Some(1_500_000));
}
