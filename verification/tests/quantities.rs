use planetary_transfer::fixed::SCALE;
use planetary_transfer::quantities::{
    Calculus, Distance, DistanceUnit, Duration, Mass, MassUnit, TimeScale, Velocity,
    VelocityUnit, KILOGRAMS_LUNAR,
};

#[test]
fn distance_from_astronomical_unit_fills_every_field() {
    let d = Distance::from_astronomical_unit(1_523_660_000_000_000_000);
    assert_eq!(d.au, 1_523_660_000_000_000_000);
    assert_eq!(d.m, 227_936_523_724_180_000_000_000_000_000);
    assert_eq!(d.km, 227_936_523_724_180_000_000_000_000);
}

#[test]
fn distance_from_each_unit_agrees() {
    let a = Distance::from_meters(10_000 * SCALE);
    let b = Distance::from_kilometers(10 * SCALE);
    assert_eq!(a, b);
    assert_eq!(a.au, 66_845_803_169);
    assert_eq!(Distance::from_meters(-2_500).km, -3);
    assert_eq!(Distance::from_meters(-2_499).km, -2);
    assert_eq!(Distance::from_meters(1_500).km, 2);
}

#[test]
fn distance_updated_rebuilds_from_the_edited_field() {
    let mut d = Distance::from_astronomical_unit(SCALE);
    d.km = 5 * SCALE;
    d.km_updated();
    assert_eq!(d, Distance::from_kilometers(5 * SCALE));
    d.au = 2 * SCALE;
    d.au_updated();
    assert_eq!(d, Distance::from_astronomical_unit(2 * SCALE));
    d.m = 42 * SCALE;
    d.m_updated();
    assert_eq!(d, Distance::from_meters(42 * SCALE));
}

#[test]
fn distance_round_trip_through_astronomical_units() {
    // ten kilometers, the least radius of the sliders
    let least = Distance::from_kilometers(10 * SCALE);
    assert_eq!(least.au, 66_845_803_169);
    let back = Distance::from_astronomical_unit(least.au);
    assert_eq!(back.m, 9_999_999_999_929_534_887_000);
    assert!((back.m - least.m).abs() * 1_000_000 <= least.m);
    assert!((back.m - least.m).abs() * 100_000_000_000 <= least.m);
    let held = Distance::from_meters(123_456_789_012_345_678_000_000);
    assert_eq!(held.au, 825_256_821_825);
    let again = Distance::from_astronomical_unit(held.au);
    assert_eq!(again.m, 123_456_789_012_283_251_975_000);
    assert!((again.m - held.m).abs() * 2 <= 149_598_023_000);
    assert_eq!(Distance::from_astronomical_unit(again.au), again);
}

#[test]
fn mass_from_solar_fills_every_field() {
    let m = Mass::from_solar(SCALE as u128);
    assert_eq!(m.solar, SCALE as u128);
    assert_eq!(m.kg, 1_988_470_000_000_000_000_000_000_000_000_000_000);
    assert_eq!(m.gravitational_parameter, 132_716_453_210_000_000_000_000_000);
    assert_eq!(m.lunar, 27_062_581_250_467_690_581_481_763);
    assert_eq!(m.earth, 332_954_355_178_996_014_868_893);
    assert_eq!(m.jovian, 1_047_594_211_144_652_895_218);
}

#[test]
fn mass_from_each_unit_keeps_its_own_field() {
    assert_eq!(Mass::from_lunar(50_000_000_000_000_000).lunar, 50_000_000_000_000_000);
    assert_eq!(Mass::from_lunar(50_000_000_000_000_000).kg, 3_673_836_545_000_000_000_000_000_000);
    assert_eq!(Mass::from_earth(SCALE as u128).kg, 5_972_200_000_000_000_000_000_000_000_000);
    assert_eq!(Mass::from_earth(SCALE as u128).earth, SCALE as u128);
    assert_eq!(Mass::from_jovian(SCALE as u128).kg, 1_898_130_000_000_000_000_000_000_000_000_000);
    assert_eq!(Mass::from_jovian(3_141_592_653_589_793_238).jovian, 3_141_592_653_589_793_238);
    assert_eq!(Mass::from_kilograms(1_000_000).kg, 1_000_000);
    assert_eq!(Mass::from_kilograms(1_000_000).gravitational_parameter, 0);
    assert_eq!(Mass::from_solar(100 * SCALE as u128).solar, 100 * SCALE as u128);
    assert_eq!(Mass::from_solar(123_456_789_012_345_678).solar, 123_456_789_012_345_678);
}

#[test]
fn mass_updated_rebuilds_from_the_edited_field() {
    let mut m = Mass::from_solar(SCALE as u128);
    m.jovian = 3 * SCALE as u128;
    m.jovian_updated();
    assert_eq!(m, Mass::from_jovian(3 * SCALE as u128));
    m.earth = 7 * SCALE as u128;
    m.earth_updated();
    assert_eq!(m, Mass::from_earth(7 * SCALE as u128));
    m.lunar = 9 * SCALE as u128;
    m.lunar_updated();
    assert_eq!(m, Mass::from_lunar(9 * SCALE as u128));
    m.solar = 2 * SCALE as u128;
    m.solar_updated();
    assert_eq!(m, Mass::from_solar(2 * SCALE as u128));
    m.kg = 12_345;
    m.kg_updated();
    assert_eq!(m, Mass::from_kilograms(12_345));
}

fn within_a_billionth(one: u128, other: u128) -> bool {
    let gap = if one > other { one - other } else { other - one };
    gap <= one / 1_000_000_000
}

#[test]
fn mass_round_trip_through_every_unit() {
    // one earth mass and the least mass of the sliders, through every unit
    for mass in [Mass::from_earth(SCALE as u128), Mass::from_lunar(50_000_000_000_000_000)] {
        assert!(within_a_billionth(mass.kg, Mass::from_lunar(mass.lunar).kg));
        assert!(within_a_billionth(mass.kg, Mass::from_earth(mass.earth).kg));
        assert!(within_a_billionth(mass.kg, Mass::from_jovian(mass.jovian).kg));
        assert!(within_a_billionth(mass.kg, Mass::from_solar(mass.solar).kg));
    }
    let earth = Mass::from_earth(SCALE as u128);
    assert_eq!(earth.solar, 3_003_414_685_663);
    assert_eq!(Mass::from_solar(earth.solar).kg, 5_972_200_000_000_305_610_000_000_000_000);
    let least = Mass::from_lunar(50_000_000_000_000_000);
    assert_eq!(least.earth, 615_156_315_093_265);
    assert_eq!(Mass::from_earth(least.earth).kg, 3_673_836_544_999_997_233_000_000_000);
    assert_eq!(KILOGRAMS_LUNAR, 73_476_730_900_000_000_000_000);
}

#[test]
fn velocity_from_kilometers_per_second_fills_every_field() {
    let v = Velocity::from_kilometers_per_second(3 * SCALE);
    assert_eq!(v.kps, 3 * SCALE);
    assert_eq!(v.mps, 3_000 * SCALE);
    assert_eq!(v.mmps, 3_000_000 * SCALE);
}

#[test]
fn velocity_from_millimeters_per_second_rounds_to_the_grid() {
    let v = Velocity::from_millimeters_per_second(1_234_567);
    assert_eq!(v.mps, 1_235);
    assert_eq!(v.mmps, 1_235_000);
    assert_eq!(v.kps, 1);
    let w = Velocity::from_millimeters_per_second(-1_234_499);
    assert_eq!(w.mps, -1_234);
    let mut u = Velocity::from_meters_per_second(5 * SCALE);
    u.mmps = 7_000 * SCALE;
    u.mmps_updated();
    assert_eq!(u, Velocity::from_meters_per_second(7 * SCALE));
    u.kps = 2 * SCALE;
    u.kps_updated();
    assert_eq!(u, Velocity::from_kilometers_per_second(2 * SCALE));
    u.mps = 3 * SCALE / 2;
    u.mps_updated();
    assert_eq!(u, Velocity::from_meters_per_second(3 * SCALE / 2));
}

#[test]
fn quantities_add_subtract_and_scale_in_the_canonical_unit() {
    let a = Velocity::from_meters_per_second(10 * SCALE);
    let b = Velocity::from_meters_per_second(5 * SCALE / 2);
    assert_eq!(a.add(b), Velocity::from_meters_per_second(25 * SCALE / 2));
    assert_eq!(a.sub(b), Velocity::from_meters_per_second(15 * SCALE / 2));
    assert_eq!(b.sub(a), Velocity::from_meters_per_second(-15 * SCALE / 2));
    assert_eq!(a.mul(6 * SCALE / 10), Velocity::from_meters_per_second(6 * SCALE));
    assert_eq!(a.div(4 * SCALE), Velocity::from_meters_per_second(5 * SCALE / 2));
    assert_eq!(a.div(-3 * SCALE), Velocity::from_meters_per_second(-3_333_333_333_333_333_333));
    let d = Distance::from_kilometers(3 * SCALE);
    assert_eq!(d.add(d), Distance::from_kilometers(6 * SCALE));
    assert_eq!(d.sub(d), Distance::from_meters(0));
    assert_eq!(d.mul(3 * SCALE / 2), Distance::from_kilometers(9 * SCALE / 2));
    assert_eq!(d.div(2 * SCALE), Distance::from_kilometers(3 * SCALE / 2));
    let t = Duration::from_minutes(3 * SCALE);
    assert_eq!(t.add(t), Duration::from_minutes(6 * SCALE));
    assert_eq!(t.sub(t), Duration::from_seconds(0));
    assert_eq!(t.mul(-SCALE / 2), Duration::from_seconds(-90 * SCALE));
    assert_eq!(t.div(3 * SCALE), Duration::from_minutes(SCALE));
}

#[test]
fn calculus_builds_from_and_reads_the_canonical_unit() {
    assert_eq!(<Distance as Calculus>::new(5 * SCALE), Distance::from_meters(5 * SCALE));
    assert_eq!(<Velocity as Calculus>::new(5 * SCALE), Velocity::from_meters_per_second(5 * SCALE));
    assert_eq!(<Duration as Calculus>::new(5 * SCALE), Duration::from_seconds(5 * SCALE));
    assert_eq!(Distance::from_kilometers(2 * SCALE).base_quantity(), 2_000 * SCALE);
    assert_eq!(Velocity::from_kilometers_per_second(2 * SCALE).base_quantity(), 2_000 * SCALE);
    assert_eq!(Duration::from_minutes(2 * SCALE).base_quantity(), 120 * SCALE);
}

#[test]
fn duration_from_days_fills_every_field() {
    let t = Duration::from_days(259_350_000_000_000_000_000);
    assert_eq!(t.d, 259_350_000_000_000_000_000);
    assert_eq!(t.s, 22_407_840_000_000_000_000_000_000);
    assert_eq!(t.min, 373_464_000_000_000_000_000_000);
    assert_eq!(t.h, 6_224_400_000_000_000_000_000);
    assert_eq!(t.m, 8_520_914_187_149_633_463);
    assert_eq!(t.y, 710_076_182_262_469_455);
}

#[test]
fn duration_from_each_unit_agrees() {
    assert_eq!(Duration::from_minutes(SCALE), Duration::from_seconds(60 * SCALE));
    assert_eq!(Duration::from_hours(SCALE), Duration::from_seconds(3_600 * SCALE));
    assert_eq!(Duration::from_days(SCALE), Duration::from_seconds(86_400 * SCALE));
    assert_eq!(Duration::from_months(SCALE), Duration::from_seconds(2_629_746 * SCALE));
    assert_eq!(Duration::from_years(SCALE), Duration::from_seconds(31_556_952 * SCALE));
    assert_eq!(Duration::from_years(SCALE).m, 12 * SCALE);
}

#[test]
fn smallest_duration_takes_the_largest_unit_that_counts_one() {
    let year = Duration::from_years(SCALE).smallest_duration();
    assert_eq!(year.scale(), TimeScale::Years);
    assert_eq!(year.value(), SCALE);
    let almost = Duration::from_seconds(31_556_952 * SCALE - 31_556_952).smallest_duration();
    assert_eq!(almost.scale(), TimeScale::Months);
    assert_eq!(almost.value(), 12 * SCALE - 12);
    assert_eq!(Duration::from_days(29 * SCALE).smallest_duration().scale(), TimeScale::Days);
    assert_eq!(Duration::from_hours(23 * SCALE).smallest_duration().scale(), TimeScale::Hours);
    assert_eq!(Duration::from_minutes(59 * SCALE).smallest_duration().scale(), TimeScale::Minutes);
    assert_eq!(Duration::from_seconds(59 * SCALE).smallest_duration().scale(), TimeScale::Seconds);
    assert_eq!(Duration::from_seconds(60 * SCALE).smallest_duration().scale(), TimeScale::Minutes);
    // less than one in every unit: seconds
    let short = Duration::from_seconds(SCALE / 4).smallest_duration();
    assert_eq!(short.scale(), TimeScale::Seconds);
    assert_eq!(short.value(), SCALE / 4);
    let back = Duration::from_seconds(-90 * SCALE).smallest_duration();
    assert_eq!(back.scale(), TimeScale::Seconds);
    assert_eq!(back.value(), -90 * SCALE);
}

#[test]
fn duration_in_each_unit_names_the_unit() {
    let t = Duration::from_seconds(22_365_444_985_242_261_558_554_594);
    assert_eq!(t.seconds().value(), 22_365_444_985_242_261_558_554_594);
    assert_eq!(t.seconds().unit(), "seconds");
    assert_eq!(t.minutes().value(), 372_757_416_420_704_359_309_243);
    assert_eq!(t.minutes().unit(), "minutes");
    assert_eq!(t.hours().value(), 6_212_623_607_011_739_321_821);
    assert_eq!(t.hours().unit(), "hours");
    assert_eq!(t.days().value(), 258_859_316_958_822_471_743);
    assert_eq!(t.days().unit(), "days");
    assert_eq!(t.months().value(), 8_504_792_852_709_828_842);
    assert_eq!(t.months().unit(), "months");
    assert_eq!(t.years().value(), 708_732_737_725_819_070);
    assert_eq!(t.years().unit(), "years");
    assert_eq!(t.in_unit(TimeScale::Days), t.days());
    assert_eq!(TimeScale::Months.name(), "months");
}

#[test]
fn duration_round_to_rounds_every_field() {
    let t = Duration::from_seconds(22_365_444_985_242_261_558_554_594).round_to(2);
    assert_eq!(t.s, 22_365_444_990_000_000_000_000_000);
    assert_eq!(t.min, 372_757_420_000_000_000_000_000);
    assert_eq!(t.h, 6_212_620_000_000_000_000_000);
    assert_eq!(t.d, 258_860_000_000_000_000_000);
    assert_eq!(t.m, 8_500_000_000_000_000_000);
    assert_eq!(t.y, 710_000_000_000_000_000);
}

#[test]
fn smallest_duration_formatted_writes_value_and_unit() {
    let flight = Duration::from_seconds(22_365_444_985_242_261_558_554_594).round_to(2);
    assert_eq!(flight.smallest_duration_formatted(), "8.5 months");
    assert_eq!(Duration::from_days(3 * SCALE).smallest_duration_formatted(), "3 days");
    assert_eq!(Duration::from_seconds(SCALE / 2).smallest_duration_formatted(), "0.5 seconds");
    assert_eq!(Duration::from_seconds(-5 * SCALE / 4).smallest_duration_formatted(), "-1.25 seconds");
    let unit = Duration::from_years(2 * SCALE).years().round_to(0);
    assert_eq!(unit.as_string(), "2 years");
    assert_eq!(Duration::from_seconds(1_234_567_800_000_000_000).seconds().round_to(3).value(), 1_235_000_000_000_000_000);
    // to the tens and to the hundreds
    assert_eq!(Duration::from_days(259_350_000_000_000_000_000).days().round_to(-1).as_string(), "260 days");
    assert_eq!(Duration::from_days(259_350_000_000_000_000_000).days().round_to(-2).as_string(), "300 days");
}

#[test]
fn distance_is_shown_in_the_unit_of_its_size() {
    assert_eq!(Distance::from_astronomical_unit(SCALE).display_unit(), DistanceUnit::AstronomicalUnits);
    assert_eq!(Distance::from_kilometers(7_500_000 * SCALE + 1).display_unit(), DistanceUnit::AstronomicalUnits);
    assert_eq!(Distance::from_kilometers(7_500_000 * SCALE).display_unit(), DistanceUnit::Kilometers);
    assert_eq!(Distance::from_meters(100_000 * SCALE + 1).display_unit(), DistanceUnit::Kilometers);
    assert_eq!(Distance::from_meters(100_000 * SCALE).display_unit(), DistanceUnit::Meters);
    assert_eq!(Distance::from_meters(-5 * SCALE).display_unit(), DistanceUnit::Meters);
}

#[test]
fn mass_is_shown_in_the_unit_of_its_size() {
    let one = SCALE as u128;
    assert_eq!(Mass::from_solar(one).display_unit(), MassUnit::Solar);
    assert_eq!(Mass::from_jovian(97 * one + 1).display_unit(), MassUnit::Solar);
    assert_eq!(Mass::from_jovian(97 * one).display_unit(), MassUnit::Jovian);
    assert_eq!(Mass::from_earth(35 * one + 1).display_unit(), MassUnit::Jovian);
    assert_eq!(Mass::from_earth(35 * one).display_unit(), MassUnit::Earth);
    assert_eq!(Mass::from_lunar(8 * one + 1).display_unit(), MassUnit::Earth);
    assert_eq!(Mass::from_lunar(8 * one).display_unit(), MassUnit::Lunar);
    assert_eq!(Mass::from_lunar(one / 20).display_unit(), MassUnit::Lunar);
}

#[test]
fn velocity_is_shown_in_the_unit_of_its_size() {
    assert_eq!(Velocity::from_kilometers_per_second(3 * SCALE).display_unit(), VelocityUnit::KilometersPerSecond);
    assert_eq!(Velocity::from_meters_per_second(1_000 * SCALE).display_unit(), VelocityUnit::KilometersPerSecond);
    assert_eq!(Velocity::from_meters_per_second(-1_000 * SCALE).display_unit(), VelocityUnit::KilometersPerSecond);
    assert_eq!(Velocity::from_meters_per_second(1_000 * SCALE - 1).display_unit(), VelocityUnit::MetersPerSecond);
    assert_eq!(Velocity::from_meters_per_second(SCALE).display_unit(), VelocityUnit::MetersPerSecond);
    assert_eq!(Velocity::from_meters_per_second(-SCALE).display_unit(), VelocityUnit::MetersPerSecond);
    assert_eq!(Velocity::from_meters_per_second(SCALE - 1).display_unit(), VelocityUnit::MillimetersPerSecond);
    assert_eq!(Velocity::from_meters_per_second(0).display_unit(), VelocityUnit::MillimetersPerSecond);
}
