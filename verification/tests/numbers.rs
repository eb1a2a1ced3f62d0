use termplot::number::{format_label, from_count, saturated, saturating_diff, saturating_sum};

#[test]
fn labels_have_one_decimal_place() {
    assert_eq!(format_label(-10_000), "-10.0");
    assert_eq!(format_label(10_000), "10.0");
    assert_eq!(format_label(-300), "-0.3");
    assert_eq!(format_label(1_200), "1.2");
    assert_eq!(format_label(0), "0.0");
    assert_eq!(format_label(45_000), "45.0");
    assert_eq!(format_label(123_456_789), "123456.8");
}

#[test]
fn labels_round_to_the_nearest_tenth() {
    assert_eq!(format_label(1_249), "1.2");
    assert_eq!(format_label(1_251), "1.3");
    assert_eq!(format_label(949), "0.9");
    assert_eq!(format_label(951), "1.0");
    assert_eq!(format_label(9_960), "10.0");
    assert_eq!(format_label(-1_251), "-1.3");
}

#[test]
fn labels_round_a_half_to_the_even_tenth() {
    assert_eq!(format_label(250), "0.2");
    assert_eq!(format_label(750), "0.8");
    assert_eq!(format_label(1_250), "1.2");
    assert_eq!(format_label(1_350), "1.4");
    assert_eq!(format_label(50), "0.0");
    assert_eq!(format_label(150), "0.2");
    assert_eq!(format_label(-250), "-0.2");
}

#[test]
fn labels_keep_the_sign_of_a_small_negative_number() {
    assert_eq!(format_label(-40), "-0.0");
    assert_eq!(format_label(-1), "-0.0");
    assert_eq!(format_label(40), "0.0");
}

#[test]
fn labels_of_the_bounds_of_the_number_range() {
    assert_eq!(format_label(i64::MAX), "9223372036854775.8");
    assert_eq!(format_label(i64::MIN), "-9223372036854775.8");
}

#[test]
fn arithmetic_stops_at_the_bounds() {
    assert_eq!(saturating_sum(1, 2), 3);
    assert_eq!(saturating_sum(i64::MAX, 1), i64::MAX);
    assert_eq!(saturating_sum(i64::MIN, -1), i64::MIN);
    assert_eq!(saturating_diff(5, 7), -2);
    assert_eq!(saturating_diff(i64::MIN, 1), i64::MIN);
    assert_eq!(saturating_diff(i64::MAX, -1), i64::MAX);
    assert_eq!(saturated(i64::MAX as i128 + 5), i64::MAX);
    assert_eq!(saturated(i64::MIN as i128 - 5), i64::MIN);
    assert_eq!(saturated(-17), -17);
}

#[test]
fn counts_become_whole_units() {
    assert_eq!(from_count(0), 0);
    assert_eq!(from_count(3), 3_000);
    assert_eq!(from_count(usize::MAX), i64::MAX);
}
