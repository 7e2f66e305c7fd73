use planetary_transfer::angle::{PI, TAU};
use planetary_transfer::fixed::SCALE;
use planetary_transfer::orbit::{Parent, Planet};
use planetary_transfer::quantities::{Distance, Duration, Mass, Velocity};
use planetary_transfer::transfer::{IncompatibleParents, Transfer};

fn sun() -> Parent {
    Parent::new(Mass::from_solar(SCALE as u128))
}

fn moonlet() -> Parent {
    Parent::new(Mass::from_lunar(SCALE as u128 / 20))
}

fn earth() -> Planet {
    Planet::new(Distance::from_astronomical_unit(SCALE), sun())
}

fn mars() -> Planet {
    Planet::new(Distance::from_astronomical_unit(1_523_660_000_000_000_000), sun())
}

fn at(au: i128, parent: Parent) -> Planet {
    Planet::new(Distance::from_astronomical_unit(au * SCALE), parent)
}

fn to_fixed(x: f64) -> i128 {
    (x * 1e18).round() as i128
}

fn to_float(x: i128) -> f64 {
    x as f64 / 1e18
}

fn close(found: i128, wanted: f64, relative: f64) -> bool {
    (to_float(found) - wanted).abs() <= relative * wanted.abs()
}

/// The mean anomaly at a place of the orbit, from the cosine of its true anomaly.
fn mean_anomaly_at(transfer: &Transfer, true_anomaly_cos: i128) -> i128 {
    let cosine = transfer.eccentric_anomaly_cos(true_anomaly_cos).unwrap();
    if transfer.elliptic() {
        let anomaly = to_float(cosine).acos();
        transfer.mean_anomaly(to_fixed(anomaly), to_fixed(anomaly.sin()))
    } else {
        let anomaly = to_float(cosine).acosh();
        transfer.mean_anomaly(to_fixed(anomaly), to_fixed(anomaly.sinh()))
    }
}

fn time_of_flight(transfer: &Transfer) -> Duration {
    let departure = mean_anomaly_at(transfer, transfer.origin_true_anomaly_departure_cos());
    let arrival = mean_anomaly_at(transfer, transfer.target_true_anomaly_arrival_cos());
    transfer.time_of_flight(departure, arrival).unwrap()
}

fn phase(transfer: &Transfer) -> i128 {
    let arrival = to_fixed(to_float(transfer.target_true_anomaly_arrival_cos()).acos());
    transfer.phase(arrival, time_of_flight(transfer))
}

/// Half the period of the ellipse between two radii, in seconds.
fn half_period(mu: f64, origin: f64, target: f64) -> f64 {
    let axis = (origin + target) / 2.0;
    std::f64::consts::PI * (axis * axis * axis / mu).sqrt()
}

#[test]
fn new_starts_at_the_hohmann_speed() {
    let t = Transfer::new(earth(), mars());
    assert_eq!(t.origin().sma(), earth().sma());
    assert_eq!(t.target().sma(), mars().sma());
    assert_eq!(t.launch_velocity(), t.velocity_hohmann());
}

#[test]
fn try_new_refuses_planets_of_different_parents() {
    let other = Planet::new(
        Distance::from_astronomical_unit(1_523_660_000_000_000_000),
        Parent::new(Mass::from_solar(2 * SCALE as u128)),
    );
    assert_eq!(Transfer::try_new(earth(), other).err(), Some(IncompatibleParents));
    let made = Transfer::try_new(earth(), mars());
    assert!(made.is_ok());
    assert_eq!(made.unwrap().velocity_hohmann().mps, 32_729_778_425_932_128_468_900);
    // the same field from another unit is the same parent
    let twin = Planet::new(
        Distance::from_astronomical_unit(1_523_660_000_000_000_000),
        Parent::new(Mass::from_kilograms(1_988_470_000_000_000_000_000_000_000_000_000_000)),
    );
    assert!(Transfer::try_new(earth(), twin).is_ok());
}

#[test]
fn hohmann_from_the_earth_to_mars() {
    let t = Transfer::new(earth(), mars());
    assert_eq!(t.velocity_hohmann().mps, 32_729_778_425_932_128_468_900);
    assert_eq!(t.delta_v_hohmann().mps, 2_944_651_418_269_442_300_021);
    assert_eq!(t.min_velocity(), t.delta_v_hohmann());
    assert_eq!(t.max_velocity().mps, 22_582_518_473_828_719_381_361);
    assert_eq!(t.eccentricity(), 207_500_217_937_440_067);
    assert_eq!(t.sma(), Some(Distance::from_meters(188_767_273_362_089_999_999_999_999_860)));
    assert!(t.elliptic());
    assert!(!t.parabolic());
    assert_eq!(t.origin_true_anomaly_departure_cos(), SCALE);
    assert_eq!(t.target_true_anomaly_arrival_cos(), -SCALE);
    assert_eq!(t.true_anomaly_cos(earth().sma()), Some(SCALE));
    assert_eq!(t.true_anomaly_cos(mars().sma()), Some(-SCALE));
    let middle = Distance::from_meters((earth().sma().m + mars().sma().m) / 2);
    assert_eq!(t.true_anomaly_cos(middle), Some(-207_500_000_000_000_000));
    assert_eq!(t.eccentric_anomaly_cos(SCALE), Some(SCALE));
    assert_eq!(t.eccentric_anomaly_cos(-SCALE), Some(-SCALE));
    assert_eq!(t.eccentric_anomaly_cos(-207_500_000_000_000_000), Some(227_743_219_354));
    assert_eq!(t.mean_anomaly(1_500_000_000_000_000_000, 997_494_986_604_054_431), 1_293_019_572_888_154_846);
    assert_eq!(t.mean_anomaly(PI, 0), PI);
    assert_eq!(t.time_of_flight(0, PI).unwrap().s, 22_365_444_985_242_261_437_529_176);
    // the elements of the ellipse between the two radii
    assert!(close(t.eccentricity(), 0.52366 / 2.52366, 1e-12));
    assert!(close(t.sma().unwrap().au, 1.26183, 1e-12));
    assert!(close(t.velocity_hohmann().mps, 29785.127007662686 * (2.0f64 * 1.52366 / 2.52366).sqrt(), 1e-12));
}

#[test]
fn earth_to_mars_takes_259_days_and_leads_by_44_degrees() {
    let t = Transfer::new(earth(), mars());
    let flight = time_of_flight(&t);
    assert!(close(flight.s, 22365444.98524226, 1e-12));
    assert!(close(flight.s, half_period(1.3271645321e20, 149598023e3, 1.52366 * 149598023e3), 1e-9));
    assert!(close(flight.d, 258.859, 1e-5));
    assert!((to_float(flight.s) - 2.24e7).abs() < 1e5);
    assert!((to_float(t.eccentricity()) - 0.208).abs() < 1e-3);
    let angle = phase(&t);
    assert!(close(angle, 0.773934240700726, 1e-12));
    assert!((to_float(angle) - 0.75).abs() < 0.05);
    assert!((to_float(angle).to_degrees() - 43.0).abs() < 2.0);
    assert_eq!(flight.round_to(2).smallest_duration_formatted(), "8.5 months");
    assert!(close(t.origin_true_anomaly_arrival(0, flight), -1.8302011960972275, 1e-12));
}

#[test]
fn same_orbit_costs_nothing_and_takes_half_a_period() {
    let t = Transfer::new(earth(), earth());
    assert_eq!(t.velocity_hohmann(), earth().orbital_velocity());
    assert_eq!(t.delta_v_hohmann().mps, 0);
    assert_eq!(t.launch_velocity(), earth().orbital_velocity());
    assert_eq!(t.eccentricity(), 0);
    assert_eq!(t.sma(), Some(earth().sma()));
    assert_eq!(t.true_anomaly_cos(earth().sma()), None);
    assert_eq!(t.origin_true_anomaly_departure_cos(), SCALE);
    assert_eq!(t.target_true_anomaly_arrival_cos(), -SCALE);
    assert_eq!(t.eccentric_anomaly_cos(-SCALE), Some(-SCALE));
    assert_eq!(t.mean_anomaly(PI, 0), PI);
    assert_eq!(t.time_of_flight(0, PI), Some(Duration::from_seconds(earth().period() / 2)));
    assert_eq!(earth().period() / 2, 15_778_883_532_289_396_945_674_997);
    assert!(close(time_of_flight(&t).s, to_float(earth().period()) / 2.0, 1e-15));
}

#[test]
fn circular_launch_on_the_same_orbit_has_no_eccentricity() {
    let mut t = Transfer::new(earth(), earth());
    let rest = Velocity::from_meters_per_second(0);
    assert!(t.accepts(rest));
    t.set_delta_v(rest);
    assert_eq!(t.launch_velocity(), earth().orbital_velocity());
    assert_eq!(t.eccentricity(), 0);
    // toward another orbit the launch at the circular speed is a circle to the last digit
    let mut other = Transfer::new(earth(), mars());
    other.set_delta_v(rest);
    assert_eq!(other.launch_velocity(), earth().orbital_velocity());
    assert_eq!(other.eccentricity(), 2);
    assert_eq!(other.sma().unwrap().m, 149_598_023_000_000_000_311_465_202_923);
}

#[test]
fn hohmann_delta_v_has_the_sign_of_the_way() {
    assert!(Transfer::new(earth(), mars()).delta_v_hohmann().mps > 0);
    let inward = Transfer::new(mars(), earth());
    assert_eq!(inward.velocity_hohmann().mps, 21_481_024_917_587_997_638_150);
    assert_eq!(inward.delta_v_hohmann().mps, -2_648_869_585_130_187_320_135);
    assert_eq!(inward.max_velocity().mps, -15_537_484_535_682_985_903_025);
    assert_eq!(inward.eccentricity(), -207_500_217_937_440_067);
    // one meter outward and one meter inward
    let next = Planet::new(Distance::from_meters(earth().sma().m + SCALE), sun());
    assert_eq!(Transfer::new(earth(), next).delta_v_hohmann().mps, 49_775_266_073);
    assert_eq!(Transfer::new(next, earth()).delta_v_hohmann().mps, -49_775_295_859);
    assert!(close(Transfer::new(earth(), next).delta_v_hohmann().mps, 29785.127007662686 / (4.0 * 149598023e3), 1e-6));
}

#[test]
fn set_delta_v_counts_from_the_circular_speed() {
    let mut t = Transfer::new(earth(), mars());
    let wanted = Velocity::from_kilometers_per_second(20 * SCALE);
    assert!(t.accepts(wanted));
    t.set_delta_v(wanted);
    assert_eq!(t.launch_velocity().mps, 49_785_127_007_662_686_168_879);
    assert_eq!(t.velocity_hohmann().mps, 32_729_778_425_932_128_468_900);
    assert_eq!(t.eccentricity(), 1_793_832_249_489_857_719);
    assert!(!t.elliptic());
    assert!(!t.parabolic());
    assert_eq!(t.sma(), Some(Distance::from_meters(-188_450_422_738_729_156_561_321_752_439)));
    assert_eq!(t.target_true_anomaly_arrival_cos(), 464_720_000_000_000_000);
    assert_eq!(t.eccentric_anomaly_cos(464_720_000_000_000_000), Some(1_231_738_459_068_863_810));
    // a hyperbola never points back along its axis
    assert_eq!(t.eccentric_anomaly_cos(-SCALE), None);
    assert_eq!(t.mean_anomaly(668_285_000_000_000_000, 719_151_000_000_000_000), 621_751_256_052_880_668);
    let flight = time_of_flight(&t);
    assert!(close(flight.s, 4415202.191636863, 1e-9));
    assert!(flight.s > 0);
    assert!(close(phase(&t), 0.6200743127532362, 1e-9));
    // back to the Hohmann speed
    t.set_delta_v(t.delta_v_hohmann());
    assert_eq!(t.launch_velocity(), t.velocity_hohmann());
    assert_eq!(t.eccentricity(), 207_500_217_937_440_067);
}

#[test]
fn a_faster_ellipse_arrives_before_its_far_apse() {
    let mut t = Transfer::new(earth(), mars());
    t.set_delta_v(Velocity::from_kilometers_per_second(5 * SCALE));
    assert_eq!(t.launch_velocity().mps, 34_785_127_007_662_686_168_879);
    assert_eq!(t.eccentricity(), 363_918_041_496_178_688);
    assert!(t.elliptic());
    assert_eq!(t.sma(), Some(Distance::from_meters(235_186_709_825_698_158_516_510_367_092)));
    assert_eq!(t.target_true_anomaly_arrival_cos(), -288_090_000_000_000_000);
    assert_eq!(t.eccentric_anomaly_cos(-288_090_000_000_000_000), Some(84_709_033_905_476_465));
    assert_eq!(t.mean_anomaly(1_485_986_000_000_000_000, 996_406_000_000_000_000), 1_123_375_879_944_958_579);
    let flight = time_of_flight(&t);
    assert!(close(flight.s, 11121971.602594234, 1e-9));
    assert!(flight.s < time_of_flight(&Transfer::new(earth(), mars())).s);
    // the range of delta-v offered runs upward toward a target outside
    assert!(t.max_velocity().mps > t.min_velocity().mps);
    let inward = Transfer::new(mars(), earth());
    assert!(inward.max_velocity().mps < inward.min_velocity().mps);
}

#[test]
fn accepts_up_to_ten_circular_speeds() {
    let t = Transfer::new(earth(), mars());
    let c = earth().orbital_velocity().mps;
    assert!(t.accepts(Velocity::from_meters_per_second(9 * c)));
    assert!(!t.accepts(Velocity::from_meters_per_second(9 * c + 1)));
    assert!(t.accepts(Velocity::from_meters_per_second(-11 * c)));
    assert!(!t.accepts(Velocity::from_meters_per_second(-11 * c - 1)));
    assert!(t.accepts(t.min_velocity()));
    assert!(t.accepts(t.max_velocity()));
}

#[test]
fn a_slow_wide_hohmann_transfer_keeps_its_digits() {
    // a parent of a twentieth of a lunar mass, from ten to fifty astronomical units
    let mu = 0.05 * 7.34767309e22 * 6.67430e-11;
    let au = 149598023e3;
    let out = Transfer::new(at(10, moonlet()), at(50, moonlet()));
    assert_eq!(out.sma().unwrap().m, 4_487_940_690_000_000_000_000_000_000_000);
    assert_eq!(out.eccentricity(), 666_666_666_666_666_666);
    assert!(close(out.sma().unwrap().au, 30.0, 1e-12));
    assert!(close(out.eccentricity(), 2.0 / 3.0, 1e-12));
    assert_eq!(out.target_true_anomaly_arrival_cos(), -SCALE);
    let there = time_of_flight(&out);
    assert!(close(there.s, half_period(mu, 10.0 * au, 50.0 * au), 1e-9));
    // the way back takes the same time
    let back = Transfer::new(at(50, moonlet()), at(10, moonlet()));
    assert_eq!(back.target_true_anomaly_arrival_cos(), -SCALE);
    assert!(close(time_of_flight(&back).s, to_float(there.s), 1e-12));
    // round four times the mass it takes half the time
    let heavier = Parent::new(Mass::from_lunar(SCALE as u128 / 5));
    let faster = Transfer::new(at(10, heavier), at(50, heavier));
    assert!(close(time_of_flight(&faster).s, to_float(there.s) / 2.0, 1e-12));
    // from fifty to twenty-five astronomical units the arrival is at the near apse
    let inward = Transfer::new(at(50, moonlet()), at(25, moonlet()));
    assert_eq!(inward.target_true_anomaly_arrival_cos(), -SCALE);
    assert_eq!(inward.max_velocity().mps, -121_923_898_747_436_006);
    // from fifty astronomical units down to ten kilometers
    let low = Planet::new(Distance::from_kilometers(10 * SCALE), moonlet());
    let down = Transfer::new(at(50, moonlet()), low);
    assert_eq!(down.velocity_hohmann().mps, 9_362_286_257_627);
    assert!(down.velocity_hohmann().mps > 0);
    assert!(close(down.velocity_hohmann().mps, (mu / (50.0 * au)).sqrt() * (2.0f64 * 1e4 / (50.0 * au + 1e4)).sqrt(), 1e-12));
}

#[test]
fn below_the_escape_speed_the_orbit_is_an_ellipse() {
    let mut t = Transfer::new(at(50, moonlet()), at(10, moonlet()));
    let circular = t.origin().orbital_velocity().mps;
    t.set_delta_v(Velocity::from_meters_per_second(256_052_000_000_000_000 - circular));
    assert_eq!(t.launch_velocity().mps, 256_052_000_000_000_000);
    assert!(t.elliptic());
    assert!(t.sma().unwrap().m > 0);
    assert_eq!(t.sma().unwrap().m, 485_445_436_356_313_779_020_669_355_718_257_393);
}

#[test]
fn only_the_parabola_itself_has_no_axis() {
    // a Hohmann transfer from ten kilometers to fifty astronomical units is an ellipse
    let parent = Parent::new(Mass::from_solar(100 * SCALE as u128));
    let low = Planet::new(Distance::from_kilometers(10 * SCALE), parent);
    let high = Planet::new(Distance::from_astronomical_unit(50 * SCALE), parent);
    let long = Transfer::new(low, high);
    assert!(!long.parabolic());
    assert!(long.elliptic());
    assert_eq!(long.eccentricity(), 999_999_997_326_167_876);
    assert_eq!(long.sma().unwrap().m, 3_739_950_579_999_999_999_999_999_999_368);
    let flight = long.time_of_flight(0, PI).unwrap();
    assert_eq!(flight.s, 197_236_044_549_144_796_862_793_941);
    assert!(flight.s > 0);
}

#[test]
fn phase_lies_in_the_half_open_turn() {
    let t = Transfer::new(earth(), mars());
    let mut seconds: i128 = -400_000_000 * SCALE;
    while seconds < 400_000_000 * SCALE {
        let flight = Duration::from_seconds(seconds);
        let angle = t.phase(PI, flight);
        assert!(-PI < angle && angle <= PI);
        let other = t.origin_true_anomaly_arrival(-PI, flight);
        assert!(-PI < other && other <= PI);
        seconds += 7_777_777_777_777_777_777_777_777;
    }
    // a whole period of the target later the phase is the same
    let period = mars().period();
    assert_eq!(t.phase(PI, Duration::from_seconds(0)), PI);
    assert_eq!(t.phase(0, Duration::from_seconds(period)), 0);
    assert_eq!(TAU, 2 * PI);
}
