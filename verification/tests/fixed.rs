use planetary_transfer::angle::{degrees, label_direction, normalize, PI, TAU};
use planetary_transfer::fixed::{
    checked_mul_div, clamp_between, isqrt, isqrt_scaled, magnitude_of, mul_div, mul_div_floor,
    mul_div_nearest, mul_div_round, nearest, round_to, round_to_place, LIMIT, SCALE,
};

#[test]
fn mul_div_floor_keeps_the_high_bits_of_the_product() {
    let a: u128 = 1_000_000_000_000_000_000_000_000_000_000;
    let c: u128 = 10_000_000_000_000_000_000_000_000;
    assert_eq!(mul_div_floor(a, a, c), 100_000_000_000_000_000_000_000_000_000_000_000);
    assert_eq!(mul_div_floor(u128::MAX, u128::MAX, u128::MAX), u128::MAX);
    assert_eq!(mul_div_floor(u128::MAX, 7, 7), u128::MAX);
    assert_eq!(mul_div_floor(0, 12, 5), 0);
    assert_eq!(mul_div_floor(12, 0, 5), 0);
    assert_eq!(mul_div_floor(7, 5, 2), 17);
    assert_eq!(mul_div_round(7, 5, 2), 18);
    assert_eq!(mul_div_round(7, 5, 3), 12);
    assert_eq!(mul_div_round(a, a, c), 100_000_000_000_000_000_000_000_000_000_000_000);
}

#[test]
fn mul_div_rounds_toward_zero_for_every_sign() {
    assert_eq!(mul_div(7, 5, 2), 17);
    assert_eq!(mul_div(-7, 5, 2), -17);
    assert_eq!(mul_div(7, 5, -2), -17);
    assert_eq!(mul_div(-7, 5, -2), 17);
    assert_eq!(mul_div(-7, -5, -2), -17);
    assert_eq!(mul_div(0, -5, -2), 0);
    assert_eq!(
        mul_div(-7_000_000_000_000_000_000_000_000_000_000, 3, 2_000_000_000_000_000_000_000_000_000_000),
        -10
    );
}

#[test]
fn checked_mul_div_is_none_only_where_the_quotient_cannot_be_held() {
    assert_eq!(checked_mul_div(7, 5, 2), Some(17));
    assert_eq!(checked_mul_div(-7, 5, 2), Some(-17));
    assert_eq!(checked_mul_div(7, 5, 0), None);
    assert_eq!(checked_mul_div(i128::MAX, i128::MAX, i128::MAX), Some(i128::MAX));
    assert_eq!(checked_mul_div(i128::MAX, 2, 1), None);
    assert_eq!(checked_mul_div(i128::MAX, 2, 2), Some(i128::MAX));
    assert_eq!(checked_mul_div(i128::MAX, -2, 2), Some(-i128::MAX));
    assert_eq!(checked_mul_div(i128::MAX, i128::MAX, 1), None);
    assert_eq!(checked_mul_div(i128::MIN, 1, 1), None);
    assert_eq!(checked_mul_div(0, i128::MAX, 1), Some(0));
}

#[test]
fn mul_div_nearest_rounds_ties_away_from_zero() {
    assert_eq!(mul_div_nearest(7, 1, 2), 4);
    assert_eq!(mul_div_nearest(-7, 1, 2), -4);
    assert_eq!(mul_div_nearest(7, 1, -2), -4);
    assert_eq!(mul_div_nearest(5, 1, 3), 2);
    assert_eq!(mul_div_nearest(-5, 1, 3), -2);
    assert_eq!(mul_div_nearest(4, 1, 3), 1);
    assert_eq!(nearest(7, 2), 4);
    assert_eq!(nearest(-7, 2), -4);
    assert_eq!(nearest(4, 3), 1);
    assert_eq!(nearest(-5, 3), -2);
    assert_eq!(nearest(i128::MIN, 2), -85_070_591_730_234_615_865_843_651_857_942_052_864);
}

#[test]
fn isqrt_is_the_largest_root_below() {
    assert_eq!(isqrt(0), 0);
    assert_eq!(isqrt(1), 1);
    assert_eq!(isqrt(3), 1);
    assert_eq!(isqrt(4), 2);
    assert_eq!(isqrt(99), 9);
    assert_eq!(isqrt(2_000_000_000_000_000_000_000_000_000_000_000_000), 1_414_213_562_373_095_048);
    assert_eq!(isqrt(u128::MAX), 18_446_744_073_709_551_615);
}

#[test]
fn isqrt_scaled_is_the_root_on_the_grid() {
    assert_eq!(isqrt_scaled(0), 0);
    assert_eq!(isqrt_scaled(1), 1_000_000_000);
    assert_eq!(isqrt_scaled(SCALE as u128), SCALE as u128);
    assert_eq!(isqrt_scaled(2 * SCALE as u128), 1_414_213_562_373_095_048);
    assert_eq!(isqrt_scaled(4 * SCALE as u128), 2 * SCALE as u128);
    assert_eq!(isqrt_scaled(i128::MAX as u128), 13_043_817_825_332_782_212_349_571_806);
    assert_eq!(isqrt_scaled(123_456_789), 11_111_111_060_555);
}

#[test]
fn round_to_keeps_the_digits_asked_for() {
    assert_eq!(round_to(1_234_567_000_000_000_000, 2), 1_230_000_000_000_000_000);
    assert_eq!(round_to(1_235_000_000_000_000_000, 2), 1_240_000_000_000_000_000);
    assert_eq!(round_to(-1_235_000_000_000_000_000, 2), -1_240_000_000_000_000_000);
    assert_eq!(round_to(-1_234_999_000_000_000_000, 2), -1_230_000_000_000_000_000);
    assert_eq!(round_to(1_500_000_000_000_000_000, 0), 2_000_000_000_000_000_000);
    assert_eq!(round_to(1_499_999_999_999_999_999, 0), 1_000_000_000_000_000_000);
    assert_eq!(round_to(1_234_567_000_000_000_000, 5), 1_234_570_000_000_000_000);
    assert_eq!(round_to(1_234_567_890_123_456_789, 17), 1_234_567_890_123_456_790);
    assert_eq!(round_to(1_234_567_890_123_456_789, 18), 1_234_567_890_123_456_789);
    assert_eq!(round_to(1_234_567_890_123_456_789, 25), 1_234_567_890_123_456_789);
    assert_eq!(round_to(LIMIT, 0), LIMIT);
    assert_eq!(round_to(-LIMIT, 3), -LIMIT);
}

#[test]
fn round_to_place_rounds_to_tens_and_hundreds() {
    assert_eq!(round_to_place(1_234_500_000_000_000_000_000, -1), 1_230_000_000_000_000_000_000);
    assert_eq!(round_to_place(1_235_000_000_000_000_000_000, -1), 1_240_000_000_000_000_000_000);
    assert_eq!(round_to_place(-1_250_000_000_000_000_000_000, -2), -1_300_000_000_000_000_000_000);
    assert_eq!(round_to_place(49_000_000_000_000_000_000, -2), 0);
    assert_eq!(round_to_place(1_250_000_000_000_000_000, 1), 1_300_000_000_000_000_000);
    assert_eq!(round_to_place(1_250_000_000_000_000_000, 0), 1_000_000_000_000_000_000);
}

#[test]
fn magnitude_of_drops_the_sign() {
    assert_eq!(magnitude_of(-5), 5);
    assert_eq!(magnitude_of(5), 5);
    assert_eq!(magnitude_of(0), 0);
    assert_eq!(magnitude_of(i128::MIN), 170_141_183_460_469_231_731_687_303_715_884_105_728);
    assert_eq!(SCALE, 1_000_000_000_000_000_000);
}

#[test]
fn normalize_brings_every_angle_into_the_half_open_turn() {
    assert_eq!(normalize(0), 0);
    assert_eq!(normalize(PI), PI);
    assert_eq!(normalize(-PI), PI);
    assert_eq!(normalize(PI + 1), -PI + 1);
    assert_eq!(normalize(TAU), 0);
    assert_eq!(normalize(-TAU + 5), 5);
    assert_eq!(normalize(10 * TAU + 17), 17);
    assert_eq!(normalize(-3 * TAU - PI), PI);
    assert_eq!(normalize(773_939 + TAU), 773_939);
    assert_eq!(TAU, 2 * PI);
    assert_eq!(PI, 3_141_592_653_589_793_238);
    let mut angle: i128 = -40 * SCALE;
    while angle < 40 * SCALE {
        let wrapped = normalize(angle);
        assert!(-PI < wrapped && wrapped <= PI);
        assert_eq!((angle - wrapped) % TAU, 0);
        angle += 999_983_000_000_000_007;
    }
}

#[test]
fn clamp_between_takes_its_bounds_in_either_order() {
    assert_eq!(clamp_between(5, 1, 10), 5);
    assert_eq!(clamp_between(5, 10, 1), 5);
    assert_eq!(clamp_between(0, 1, 10), 1);
    assert_eq!(clamp_between(0, 10, 1), 1);
    assert_eq!(clamp_between(11, 1, 10), 10);
    assert_eq!(clamp_between(11, 10, 1), 10);
    assert_eq!(clamp_between(-7, -3, -3), -3);
    assert_eq!(clamp_between(i128::MIN, i128::MAX, i128::MIN), i128::MIN);
}

#[test]
fn label_direction_moves_the_label_of_a_narrow_angle_aside() {
    assert_eq!(label_direction(773_939_000_000_000_000), 386_969_500_000_000_000);
    assert_eq!(label_direction(-773_939_000_000_000_000), -386_969_500_000_000_000);
    assert_eq!(label_direction(300_000_000_000_000_001), 150_000_000_000_000_000);
    assert_eq!(label_direction(300_000_000_000_000_000), 400_000_000_000_000_000);
    assert_eq!(label_direction(-300_000_000_000_000_000), -400_000_000_000_000_000);
    assert_eq!(label_direction(0), 250_000_000_000_000_000);
    assert_eq!(label_direction(-1), -250_000_000_000_000_000);
    assert_eq!(label_direction(PI), 1_570_796_326_794_896_619);
    assert_eq!(label_direction(-PI), -1_570_796_326_794_896_619);
}

#[test]
fn degrees_are_rounded_once_to_two_digits() {
    assert_eq!(degrees(PI), 180 * SCALE);
    assert_eq!(degrees(-PI), -180 * SCALE);
    assert_eq!(degrees(0), 0);
    assert_eq!(degrees(TAU), 360 * SCALE);
    assert_eq!(degrees(773_934_240_700_726_024), 44_340_000_000_000_000_000);
    assert_eq!(degrees(SCALE), 57_300_000_000_000_000_000);
    assert_eq!(degrees(-SCALE / 2), -28_650_000_000_000_000_000);
}
