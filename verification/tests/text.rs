use planetary_transfer::fixed::SCALE;
use planetary_transfer::text::{display_text, to_text};

#[test]
fn to_text_writes_whole_part_point_and_fraction() {
    assert_eq!(to_text(0), "0");
    assert_eq!(to_text(SCALE), "1");
    assert_eq!(to_text(259_350_000_000_000_000_000), "259.35");
    assert_eq!(to_text(-SCALE / 2), "-0.5");
    assert_eq!(to_text(1), "0.000000000000000001");
    assert_eq!(to_text(-1), "-0.000000000000000001");
    assert_eq!(to_text(SCALE + 1), "1.000000000000000001");
    assert_eq!(to_text(10_100_000_000_000_000_000), "10.1");
    assert_eq!(to_text(123_456_789_012_345_000_000_000_000), "123456789.012345");
    assert_eq!(to_text(3_141_592_653_589_793_238), "3.141592653589793238");
    assert_eq!(to_text(i128::MAX), "170141183460469231731.687303715884105727");
    assert_eq!(to_text(i128::MIN), "-170141183460469231731.687303715884105728");
}

#[test]
fn display_text_groups_the_thousands_and_adds_the_unit() {
    assert_eq!(display_text(1_234_567_891_234_000_000_000_000, " km"), "1,234,567.8912 km");
    assert_eq!(display_text(1_234_567_891_250_000_000_000_000, " km"), "1,234,567.8913 km");
    assert_eq!(display_text(999 * SCALE, ""), "999");
    assert_eq!(display_text(1_000 * SCALE, " m"), "1,000 m");
    assert_eq!(display_text(-12_345_678_500_000_000_000_000_000, " au"), "-12,345,678.5 au");
    assert_eq!(display_text(1_523_660_000_000_000_000, " au"), "1.5237 au");
    assert_eq!(display_text(0, " m/s"), "0 m/s");
    // the digits after the point are a run of their own and stay as they are
    assert_eq!(display_text(123_456_000_000_000_000, ""), "0.1235");
}
