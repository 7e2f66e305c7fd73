//! What holds of the quantities and of every transfer, proved from the contracts.

use crate::angle::{PI, TAU};
use crate::fixed::{
    is_sqrt_floor, lemma_ratio_sign, lemma_sqrt_floor_exists, lemma_sqrt_floor_unique, magnitude,
    nearest_div, ratio, SCALE,
};
use crate::orbit::ENERGY_FACTOR;
use crate::quantities::{
    Distance, Duration, Mass, TimeScale, KILOGRAMS_EARTH, KILOGRAMS_JOVIAN, KILOGRAMS_LUNAR,
    KILOGRAMS_SOLAR, METERS_AU, UNIT_FACTOR,
};
use crate::transfer::Transfer;
use vstd::arithmetic::div_mod::{
    lemma_div_by_multiple, lemma_div_denominator, lemma_div_multiples_vanish_quotient,
    lemma_fundamental_div_mod,
};
use vstd::prelude::*;

verus! {

/// The smallest mass of a parent that the round trip through the units is stated for:
/// a twentieth of a lunar mass.
pub open spec fn least_mass() -> int {
    3_673_836_545_000_000_000_000_000_000
}

/// The nearest quotient, taken back, misses the dividend by at most half a divisor.
pub proof fn nearest_div_error(n: int, d: int)
    requires
        0 <= n,
        0 < d,
    ensures
        2 * magnitude(nearest_div(n, d) * d - n) <= d,
        0 <= nearest_div(n, d),
{
    lemma_fundamental_div_mod(n, d);
    let q = n / d;
    let r = n % d;
    assert(0 <= r < d && 0 <= q) by (nonlinear_arith)
        requires
            r == n % d,
            q == n / d,
            0 <= n,
            0 < d,
    ;
    let k = nearest_div(n, d);
    assert(k * d - n == if 2 * r >= d {
        d - r
    } else {
        -r
    }) by (nonlinear_arith)
        requires
            n == d * q + r,
            k == q + if 2 * r >= d {
                1int
            } else {
                0int
            },
    ;
}

/// A mass of a twentieth of a lunar mass or more, rebuilt from its lunar, earth, jovian
/// or solar masses, differs from the mass it was taken from by at most a billionth of
/// it.
pub proof fn mass_round_trip(mass: u128, per_unit: u128)
    requires
        per_unit == KILOGRAMS_LUNAR || per_unit == KILOGRAMS_EARTH || per_unit
            == KILOGRAMS_JOVIAN || per_unit == KILOGRAMS_SOLAR,
        mass >= least_mass(),
    ensures
        ({
            let held = Mass::spec_from_kilograms(mass as int);
            let size = if per_unit == KILOGRAMS_LUNAR {
                held.lunar
            } else if per_unit == KILOGRAMS_EARTH {
                held.earth
            } else if per_unit == KILOGRAMS_JOVIAN {
                held.jovian
            } else {
                held.solar
            };
            let back = Mass::spec_kilograms_in(size as int, per_unit as int);
            magnitude(back - mass) * 1_000_000_000 <= mass
        }),
{
    let factor = UNIT_FACTOR as int;
    let unit = per_unit as int;
    let kg = mass as int;
    let n = kg * factor;
    assert(0 <= n <= 340_282_366_920_938_463_463_374_607_431_768_211_455 * factor)
        by (nonlinear_arith)
        requires
            n == kg * factor,
            0 <= kg <= 340_282_366_920_938_463_463_374_607_431_768_211_455,
            factor == 1_000_000_000_000,
    ;
    nearest_div_error(n, unit);
    let size = nearest_div(n, unit);
    assert(size <= 340_282_366_920_938_463_463_374_607_431_768_211_455) by (nonlinear_arith)
        requires
            2 * magnitude(size * unit - n) <= unit,
            0 <= n <= 340_282_366_920_938_463_463_374_607_431_768_211_455 * factor,
            unit >= 73_476_730_900_000_000_000_000,
            factor == 1_000_000_000_000,
            0 <= size,
    ;
    let m = size * unit;
    assert(0 <= m) by (nonlinear_arith)
        requires
            m == size * unit,
            0 <= size,
            0 < unit,
    ;
    nearest_div_error(m, factor);
    let back = nearest_div(m, factor);
    assert(2 * magnitude(back - kg) * factor <= unit + factor) by (nonlinear_arith)
        requires
            2 * magnitude(size * unit - kg * factor) <= unit,
            2 * magnitude(back * factor - size * unit) <= factor,
            0 < factor,
    ;
    assert(magnitude(back - kg) * 1_000_000_000 <= kg) by (nonlinear_arith)
        requires
            2 * magnitude(back - kg) * factor <= unit + factor,
            factor == 1_000_000_000_000,
            unit <= 1_988_470_000_000_000_000_000_000_000_000,
            kg >= 3_673_836_545_000_000_000_000_000_000,
    ;
}

/// A positive distance rebuilt from its astronomical units differs from the distance
/// it was taken from by at most half a step of them. From eight centimeters on, that
/// is at most a millionth of it.
pub proof fn distance_round_trip(meters: i128)
    requires
        0 < meters,
    ensures
        ({
            let held = Distance::spec_from_meters(meters as int);
            let back = Distance::spec_from_meters(held.au * METERS_AU);
            &&& back.m == held.au * METERS_AU
            &&& 2 * magnitude(back.m - meters) <= METERS_AU
            &&& meters >= 80_000_000_000_000_000 ==> magnitude(back.m - meters) * 1_000_000
                <= meters
        }),
{
    let unit = METERS_AU as int;
    nearest_div_error(meters as int, unit);
    let size = nearest_div(meters as int, unit);
    assert(0 <= size * unit <= meters + unit) by (nonlinear_arith)
        requires
            2 * magnitude(size * unit - meters) <= unit,
            0 <= size,
            0 < unit,
    ;
    assert(size <= meters) by (nonlinear_arith)
        requires
            size * unit <= meters + unit,
            unit == 149_598_023_000,
            0 <= size,
            0 < meters,
    ;
}

/// Between two orbits of one radius the Hohmann speed is the circular speed: the
/// transfer costs no delta-v.
pub proof fn hohmann_on_same_orbit(transfer: Transfer)
    requires
        transfer.spec_origin().wf(),
        transfer.spec_target().wf(),
        transfer.spec_origin_radius() == transfer.spec_target_radius(),
    ensures
        transfer.spec_hohmann_squared() == transfer.spec_circular_squared(),
        transfer.spec_hohmann_factor() == SCALE,
        transfer.spec_velocity_hohmann() == transfer.spec_circular(),
        transfer.spec_delta_v_hohmann() == 0,
{
    transfer.spec_origin().lemma_speed_bounds();
    let c = transfer.spec_circular();
    let cc = transfer.spec_circular_squared();
    let r = transfer.spec_origin_radius();
    let scale = SCALE as int;
    let square = 1_000_000_000_000_000_000_000_000_000_000_000_000int;
    lemma_div_by_multiple(cc, 2 * r);
    lemma_div_by_multiple(square, 2 * r);
    assert((2 * r) * square == square * (2 * r)) by (nonlinear_arith);
    assert(is_sqrt_floor(square, scale)) by (nonlinear_arith)
        requires
            scale == 1_000_000_000_000_000_000,
            square == 1_000_000_000_000_000_000_000_000_000_000_000_000,
    ;
    lemma_sqrt_floor_unique(square, scale);
    lemma_div_by_multiple(c, scale);
}

/// The Hohmann delta-v is never negative toward a target outside the origin and never
/// positive toward one inside. It is above zero, or below, as soon as the radii differ
/// by more than the share `3 * (SCALE / c + 1) / SCALE` of their sum, with `c` the
/// circular speed: by less than a billionth of a billionth of it wherever the circular
/// speed is a meter per second or more.
pub proof fn hohmann_delta_v_sign(transfer: Transfer)
    requires
        transfer.spec_origin().wf(),
        transfer.spec_target().wf(),
    ensures
        transfer.spec_target_radius() >= transfer.spec_origin_radius()
            ==> transfer.spec_delta_v_hohmann() >= 0,
        transfer.spec_target_radius() <= transfer.spec_origin_radius()
            ==> transfer.spec_delta_v_hohmann() <= 0,
        (transfer.spec_target_radius() - transfer.spec_origin_radius()) * SCALE >= (3 * (
        (SCALE as int) / transfer.spec_circular() + 1)) * (transfer.spec_origin_radius()
            + transfer.spec_target_radius()) ==> transfer.spec_delta_v_hohmann() > 0,
        (transfer.spec_origin_radius() - transfer.spec_target_radius()) * SCALE >= (3 * (
        (SCALE as int) / transfer.spec_circular() + 1)) * (transfer.spec_origin_radius()
            + transfer.spec_target_radius()) ==> transfer.spec_delta_v_hohmann() < 0,
{
    transfer.spec_origin().lemma_speed_bounds();
    transfer.lemma_hohmann_bounds();
    let c = transfer.spec_circular();
    let h = transfer.spec_velocity_hohmann();
    let g = transfer.spec_hohmann_factor();
    let r1 = transfer.spec_origin_radius();
    let r2 = transfer.spec_target_radius();
    let sum = r1 + r2;
    let scale = SCALE as int;
    let square = 1_000_000_000_000_000_000_000_000_000_000_000_000int;
    let share = transfer.spec_hohmann_ratio();
    let k = scale / c + 1;
    lemma_fundamental_div_mod((2 * r2) * square, sum);
    let rest = ((2 * r2) * square) % sum;
    assert(0 <= rest < sum && share * sum == (2 * r2) * square - rest) by (nonlinear_arith)
        requires
            rest == ((2 * r2) * square) % sum,
            (2 * r2) * square == sum * share + rest,
            0 < sum,
    ;
    assert((share - square) * sum == (r2 - r1) * square - rest) by (nonlinear_arith)
        requires
            share * sum == (2 * r2) * square - rest,
            sum == r1 + r2,
    ;
    assert(1 <= k <= 11 && c * k >= scale) by (nonlinear_arith)
        requires
            k == scale / c + 1,
            c >= 100_000_000_000_000_000,
            scale == 1_000_000_000_000_000_000,
    ;
    if r2 >= r1 {
        assert(share >= square) by (nonlinear_arith)
            requires
                (share - square) * sum == (r2 - r1) * square - rest,
                0 <= rest < sum,
                r2 >= r1,
                square > 0,
        ;
        if g < scale {
            assert((g + 1) * (g + 1) <= square) by (nonlinear_arith)
                requires
                    0 <= g < scale,
                    scale == 1_000_000_000_000_000_000,
                    square == 1_000_000_000_000_000_000_000_000_000_000_000_000,
            ;
        }
        assert(c * g / scale >= c) by (nonlinear_arith)
            requires
                g >= scale,
                0 <= c,
                scale == 1_000_000_000_000_000_000,
        ;
    }
    if r2 <= r1 {
        assert(share <= square) by (nonlinear_arith)
            requires
                (share - square) * sum == (r2 - r1) * square - rest,
                0 <= rest < sum,
                r2 <= r1,
                square > 0,
        ;
        if g > scale {
            assert(g * g > square) by (nonlinear_arith)
                requires
                    g > scale,
                    scale == 1_000_000_000_000_000_000,
                    square == 1_000_000_000_000_000_000_000_000_000_000_000_000,
            ;
        }
        assert(c * g / scale <= c) by (nonlinear_arith)
            requires
                0 <= g <= scale,
                0 <= c,
                scale == 1_000_000_000_000_000_000,
        ;
    }
    if (r2 - r1) * scale >= (3 * k) * sum {
        assert((share - square) * sum >= ((3 * k) * scale) * sum - sum) by (nonlinear_arith)
            requires
                (share - square) * sum == (r2 - r1) * square - rest,
                rest < sum,
                (r2 - r1) * scale >= (3 * k) * sum,
                square == scale * scale,
                scale > 0,
        ;
        assert(share - square >= (3 * k) * scale - 1) by (nonlinear_arith)
            requires
                (share - square) * sum >= ((3 * k) * scale) * sum - sum,
                0 < sum,
        ;
        assert((scale + k) * (scale + k) <= share) by (nonlinear_arith)
            requires
                share - square >= (3 * k) * scale - 1,
                square == scale * scale,
                1 <= k <= 11,
                scale == 1_000_000_000_000_000_000,
        ;
        if g < scale + k {
            assert((g + 1) * (g + 1) <= (scale + k) * (scale + k)) by (nonlinear_arith)
                requires
                    0 <= g < scale + k,
            ;
        }
        assert(c * g / scale >= c + 1) by (nonlinear_arith)
            requires
                g >= scale + k,
                c * k >= scale,
                0 <= c,
                scale == 1_000_000_000_000_000_000,
        ;
    }
    if (r1 - r2) * scale >= (3 * k) * sum {
        assert((square - share) * sum >= ((3 * k) * scale) * sum) by (nonlinear_arith)
            requires
                (share - square) * sum == (r2 - r1) * square - rest,
                0 <= rest,
                (r1 - r2) * scale >= (3 * k) * sum,
                square == scale * scale,
                scale > 0,
        ;
        assert(square - share >= (3 * k) * scale) by (nonlinear_arith)
            requires
                (square - share) * sum >= ((3 * k) * scale) * sum,
                0 < sum,
        ;
        if g > scale - k {
            assert(g * g >= (scale - k + 1) * (scale - k + 1) && (scale - k + 1) * (scale - k
                + 1) > square - (3 * k) * scale) by (nonlinear_arith)
                requires
                    g >= scale - k + 1,
                    1 <= k <= 11,
                    scale == 1_000_000_000_000_000_000,
                    square == scale * scale,
            ;
        }
        assert(c * g / scale < c) by (nonlinear_arith)
            requires
                0 <= g <= scale - k,
                c * k >= scale,
                0 <= c,
                scale == 1_000_000_000_000_000_000,
        ;
    }
}

/// A transfer between two orbits of one radius, launched at the circular speed, has no
/// eccentricity.
pub proof fn circular_launch_has_no_eccentricity(transfer: Transfer)
    requires
        transfer.wf(),
        transfer.spec_origin_radius() == transfer.spec_target_radius(),
        transfer.spec_launch_velocity() == transfer.spec_circular(),
    ensures
        transfer.spec_add_delta_v().mps == 0,
        transfer.spec_launch_squared() == transfer.spec_circular_squared(),
        transfer.spec_eccentricity() == 0,
{
    hohmann_on_same_orbit(transfer);
    transfer.lemma_launch_bounds();
    let cc = transfer.spec_circular_squared();
    let h = transfer.spec_velocity_hohmann();
    assert((2 * h + 0) * 0 == 0) by (nonlinear_arith);
    assert(0int / (SCALE as int) == 0) by (nonlinear_arith)
        requires
            SCALE == 1_000_000_000_000_000_000,
    ;
    assert(0int * SCALE == 0) by (nonlinear_arith);
    assert(0int / cc == 0) by (nonlinear_arith)
        requires
            0 < cc,
    ;
}

/// A transfer between two orbits of one radius, launched at the Hohmann speed, runs
/// along the circle itself: it has no eccentricity, it arrives half a turn after it
/// left, and the flight from the mean anomaly zero to the mean anomaly `PI` takes half
/// the period of the origin.
pub proof fn same_orbit_takes_half_a_period(transfer: Transfer)
    requires
        transfer.wf(),
        transfer.spec_origin_radius() == transfer.spec_target_radius(),
        transfer.spec_add_delta_v().mps == 0,
    ensures
        transfer.spec_eccentricity() == 0,
        !transfer.spec_parabolic(),
        transfer.spec_elliptic(),
        transfer.spec_target_true_anomaly_arrival_cos() == -SCALE,
        transfer.spec_eccentric_anomaly_cos(-SCALE as int) == -SCALE,
        transfer.spec_mean_anomaly(PI as int, 0) == PI,
        transfer.spec_mean_anomaly(0, 0) == 0,
        transfer.spec_time_of_flight(0, PI as int) == Some(
            transfer.spec_origin().spec_period() / 2,
        ),
{
    hohmann_on_same_orbit(transfer);
    circular_launch_has_no_eccentricity(transfer);
    transfer.spec_origin().lemma_speed_bounds();
    let c = transfer.spec_circular();
    let cc = transfer.spec_circular_squared();
    let r = transfer.spec_origin_radius();
    let scale = SCALE as int;
    assert(transfer.spec_binding() == cc);
    lemma_div_by_multiple(scale, cc);
    assert(cc * scale == scale * cc) by (nonlinear_arith);
    assert(transfer.spec_axis_ratio() == Some(scale));
    assert(is_sqrt_floor(scale * scale, scale)) by (nonlinear_arith)
        requires
            scale == 1_000_000_000_000_000_000,
    ;
    lemma_sqrt_floor_unique(scale * scale, scale);
    // the anomalies on the circle
    assert(0int * (-scale) == 0 && 0int * 0 == 0) by (nonlinear_arith);
    assert(0int / scale == 0) by (nonlinear_arith)
        requires
            scale == 1_000_000_000_000_000_000,
    ;
    assert(transfer.spec_anomaly_divisor(-scale) == scale);
    lemma_fundamental_div_mod(scale * scale, scale);
    vstd::arithmetic::div_mod::lemma_fundamental_div_mod_converse(
        scale * scale,
        scale,
        scale,
        0,
    );
    assert((0 + (-scale)) * scale == -(scale * scale)) by (nonlinear_arith);
    assert(0 < scale * scale) by (nonlinear_arith)
        requires
            scale == 1_000_000_000_000_000_000,
    ;
    // the time from one apse to the other
    let x = PI * r;
    assert(0 <= x <= 3_141_592_653_589_793_238 * 10_000_000_000_000_000_000_000_000_000_000)
        by (nonlinear_arith)
        requires
            x == PI * r,
            0 < r <= 10_000_000_000_000_000_000_000_000_000_000,
            PI == 3_141_592_653_589_793_238,
    ;
    assert((PI - 0) * r == x);
    let base = x / c;
    assert(0 <= base <= 314_159_265_358_979_323_800_000_000_000_000) by (nonlinear_arith)
        requires
            base == x / c,
            0 <= x <= 3_141_592_653_589_793_238 * 10_000_000_000_000_000_000_000_000_000_000,
            100_000_000_000_000_000 <= c,
    ;
    lemma_div_by_multiple(base, scale);
    assert(TAU * r == 2 * x) by (nonlinear_arith)
        requires
            x == PI * r,
            TAU == 2 * PI,
    ;
    lemma_div_denominator(2 * x, c, 2);
    lemma_div_multiples_vanish_quotient(2, x, c);
    assert(c * 2 == 2 * c) by (nonlinear_arith);
    assert((2 * x / c) / 2 == x / c);
}

/// The time of flight has the sign of the mean anomaly gained, and a gain of at least
/// a thousand circular speeds over the origin radius takes a time above zero.
pub proof fn time_of_flight_sign(transfer: Transfer, departure: int, arrival: int)
    requires
        transfer.wf(),
        transfer.spec_time_of_flight(departure, arrival).is_some(),
    ensures
        arrival >= departure ==> transfer.spec_time_of_flight(departure, arrival).unwrap() >= 0,
        arrival <= departure ==> transfer.spec_time_of_flight(departure, arrival).unwrap() <= 0,
        (arrival - departure) * transfer.spec_origin_radius() >= 1_000
            * transfer.spec_circular() ==> transfer.spec_time_of_flight(
            departure,
            arrival,
        ).unwrap() > 0,
{
    transfer.spec_origin().lemma_speed_bounds();
    transfer.lemma_launch_bounds();
    let r = transfer.spec_origin_radius();
    let c = transfer.spec_circular();
    let cc = transfer.spec_circular_squared();
    let scale = SCALE as int;
    let size = magnitude(transfer.spec_binding());
    let q = transfer.spec_axis_ratio().unwrap();
    assert(0 <= cc * scale) by (nonlinear_arith)
        requires
            0 <= cc,
            scale == 1_000_000_000_000_000_000,
    ;
    assert(q == (cc * scale) / size);
    assert(100 * q >= scale) by (nonlinear_arith)
        requires
            q == (cc * scale) / size,
            0 < size <= 100 * cc,
            0 < cc,
            scale == 1_000_000_000_000_000_000,
    ;
    assert(0 <= q * scale) by (nonlinear_arith)
        requires
            0 <= 100 * q,
            scale == 1_000_000_000_000_000_000,
    ;
    lemma_sqrt_floor_exists(q * scale);
    let root = crate::fixed::sqrt_floor(q * scale);
    if 10 * root < scale {
        assert(100 * ((root + 1) * (root + 1)) <= scale * scale) by (nonlinear_arith)
            requires
                0 <= root,
                10 * root < scale,
                scale == 1_000_000_000_000_000_000,
        ;
        assert(100 * (q * scale) >= scale * scale) by (nonlinear_arith)
            requires
                100 * q >= scale,
                scale == 1_000_000_000_000_000_000,
        ;
    }
    let swept = arrival - departure;
    let n = swept * r;
    assert((swept >= 0 ==> n >= 0) && (swept <= 0 ==> n <= 0)) by (nonlinear_arith)
        requires
            n == swept * r,
            0 < r,
    ;
    lemma_ratio_sign(n, c);
    let base = ratio(n, c);
    let m = base * q;
    assert((base >= 0 ==> m >= 0) && (base <= 0 ==> m <= 0)) by (nonlinear_arith)
        requires
            m == base * q,
            0 <= q,
    ;
    lemma_ratio_sign(m, scale);
    let scaled = ratio(m, scale);
    let k = scaled * root;
    assert((scaled >= 0 ==> k >= 0) && (scaled <= 0 ==> k <= 0)) by (nonlinear_arith)
        requires
            k == scaled * root,
            0 <= root,
    ;
    lemma_ratio_sign(k, scale);
    if n >= 1_000 * c {
        assert(n / c >= 1_000) by (nonlinear_arith)
            requires
                n >= 1_000 * c,
                0 < c,
        ;
        assert(m / scale >= 10) by (nonlinear_arith)
            requires
                m == base * q,
                base >= 1_000,
                100 * q >= scale,
                scale == 1_000_000_000_000_000_000,
        ;
        assert(k / scale >= 1) by (nonlinear_arith)
            requires
                k == scaled * root,
                scaled >= 10,
                10 * root >= scale,
                scale == 1_000_000_000_000_000_000,
        ;
    }
}

/// How far the square of the Hohmann speed may lie above what its energy is held as,
/// in steps of the speed: `(c + g + 1) / SCALE + 2`, with `c` the circular speed and
/// `g` the Hohmann factor.
pub open spec fn speed_slack(transfer: Transfer) -> int {
    (transfer.spec_circular() + transfer.spec_hohmann_factor() + 1) / (SCALE as int) + 2
}

/// The launch energy is the square of the launch speed `w` over the scale: it is held
/// less than two steps below it, and, where it is above zero, less than
/// `(2 h d + d * d) / SCALE + 1` steps above it, with `h` the Hohmann speed and `d` the
/// `speed_slack`.
pub proof fn launch_energy_follows_the_speed(transfer: Transfer)
    requires
        transfer.wf(),
    ensures
        transfer.spec_launch_velocity() * transfer.spec_launch_velocity() < (
        transfer.spec_launch_squared() + 2) * SCALE,
        transfer.spec_launch_squared() > 0 ==> transfer.spec_launch_squared() * SCALE
            < transfer.spec_launch_velocity() * transfer.spec_launch_velocity() + 2
            * transfer.spec_velocity_hohmann() * speed_slack(transfer) + speed_slack(transfer)
            * speed_slack(transfer) + SCALE,
{
    transfer.spec_origin().lemma_speed_bounds();
    transfer.lemma_hohmann_bounds();
    transfer.lemma_launch_bounds();
    let scale = SCALE as int;
    let square = 1_000_000_000_000_000_000_000_000_000_000_000_000int;
    let w = transfer.spec_launch_velocity();
    let h = transfer.spec_velocity_hohmann();
    let g = transfer.spec_hohmann_factor();
    let c = transfer.spec_circular();
    let hh = transfer.spec_hohmann_squared();
    let a = transfer.spec_add_delta_v().mps as int;
    let cc = transfer.spec_circular_squared();
    let ww = transfer.spec_launch_squared();
    let r = transfer.spec_origin_radius();
    let r2 = transfer.spec_target_radius();
    let sum = r + r2;
    let share = transfer.spec_hohmann_ratio();
    let mu = transfer.spec_origin().spec_parent().spec_parameter();
    let e = mu * ENERGY_FACTOR;
    let d = speed_slack(transfer);
    // C is the quotient of e by r, cut
    lemma_fundamental_div_mod(e, r);
    let rest = e % r;
    assert(0 <= rest < r && e == r * cc + rest) by (nonlinear_arith)
        requires
            rest == e % r,
            e == r * (e / r) + e % r,
            cc == e / r,
            0 < r,
    ;
    // the cuts of the Hohmann energy, of the Hohmann share and of the Hohmann speed
    lemma_fundamental_div_mod(cc * (2 * r2), sum);
    let rest_h = (cc * (2 * r2)) % sum;
    assert(0 <= rest_h < sum && cc * (2 * r2) == sum * hh + rest_h) by (nonlinear_arith)
        requires
            rest_h == (cc * (2 * r2)) % sum,
            cc * (2 * r2) == sum * hh + (cc * (2 * r2)) % sum,
            0 < sum,
    ;
    lemma_fundamental_div_mod((2 * r2) * square, sum);
    let rest_s = ((2 * r2) * square) % sum;
    assert(0 <= rest_s < sum && (2 * r2) * square == sum * share + rest_s) by (nonlinear_arith)
        requires
            rest_s == ((2 * r2) * square) % sum,
            (2 * r2) * square == sum * share + ((2 * r2) * square) % sum,
            0 < sum,
    ;
    lemma_fundamental_div_mod(c * g, scale);
    let rest_v = (c * g) % scale;
    assert(0 <= rest_v < scale && c * g == scale * h + rest_v) by (nonlinear_arith)
        requires
            rest_v == (c * g) % scale,
            c * g == scale * (c * g / scale) + (c * g) % scale,
            h == c * g / scale,
            scale > 0,
    ;
    // W is the square of the launch speed over the scale, up to the cuts
    let n = (2 * h + a) * a;
    let t = ratio(n, scale);
    assert(n == w * w - h * h) by (nonlinear_arith)
        requires
            n == (2 * h + a) * a,
            w == h + a,
    ;
    assert(t * scale < n + scale && t * scale > n - scale) by {
        if n >= 0 {
            lemma_fundamental_div_mod(n, scale);
            assert(0 <= n % scale < scale) by (nonlinear_arith)
                requires
                    scale == 1_000_000_000_000_000_000,
            ;
            assert(scale * (n / scale) == (n / scale) * scale) by (nonlinear_arith);
        } else {
            lemma_fundamental_div_mod(-n, scale);
            assert(0 <= (-n) % scale < scale) by (nonlinear_arith)
                requires
                    scale == 1_000_000_000_000_000_000,
            ;
            assert(scale * ((-n) / scale) == ((-n) / scale) * scale && (-((-n) / scale)) * scale
                == -(((-n) / scale) * scale)) by (nonlinear_arith);
        }
    }
    let raw = hh + t;
    assert(raw * scale == hh * scale + t * scale) by (nonlinear_arith)
        requires
            raw == hh + t,
    ;
    {
        // the square of the Hohmann speed is less than one step above its energy
        assert((h * scale) * (h * scale) <= (c * c) * (g * g)) by (nonlinear_arith)
            requires
                c * g == scale * h + rest_v,
                0 <= rest_v,
                0 <= h,
                scale > 0,
        ;
        assert((c * c) * (g * g) <= (cc * scale) * share) by (nonlinear_arith)
            requires
                0 <= c * c <= cc * scale,
                0 <= g * g <= share,
        ;
        assert((cc * share) * sum <= (sum * (hh + 1)) * square) by (nonlinear_arith)
            requires
                (2 * r2) * square == sum * share + rest_s,
                0 <= rest_s,
                cc * (2 * r2) == sum * hh + rest_h,
                rest_h < sum,
                0 <= cc,
                0 < square,
        ;
        assert(cc * share <= (hh + 1) * square) by (nonlinear_arith)
            requires
                (cc * share) * sum <= (sum * (hh + 1)) * square,
                0 < sum,
        ;
        assert(h * h <= (hh + 1) * scale) by (nonlinear_arith)
            requires
                (h * scale) * (h * scale) <= (c * c) * (g * g),
                (c * c) * (g * g) <= (cc * scale) * share,
                cc * share <= (hh + 1) * square,
                square == scale * scale,
                scale > 0,
        ;
        assert(w * w < (ww + 2) * scale) by (nonlinear_arith)
            requires
                ww >= raw,
                raw * scale == hh * scale + t * scale,
                t * scale > n - scale,
                n == w * w - h * h,
                h * h <= (hh + 1) * scale,
                scale > 0,
        ;
    }
    if ww > 0 {
        assert(ww == raw);
        // the energy of the Hohmann launch is below the square of a speed close above it
        assert((hh * square) * sum <= (cc * (share + 1)) * sum) by (nonlinear_arith)
            requires
                (2 * r2) * square == sum * share + rest_s,
                rest_s < sum,
                cc * (2 * r2) == sum * hh + rest_h,
                0 <= rest_h,
                0 <= cc,
                0 < square,
        ;
        assert(hh * square <= cc * (share + 1)) by (nonlinear_arith)
            requires
                (hh * square) * sum <= (cc * (share + 1)) * sum,
                0 < sum,
        ;
        let energy = cc * scale;
        let above = (c + 1) * (c + 1);
        let factor = (g + 1) * (g + 1);
        assert(energy * (share + 1) < above * factor) by (nonlinear_arith)
            requires
                0 <= energy < above,
                1 <= share + 1 <= factor,
        ;
        assert(above * factor == ((c + 1) * (g + 1)) * ((c + 1) * (g + 1))) by (nonlinear_arith)
            requires
                above == (c + 1) * (c + 1),
                factor == (g + 1) * (g + 1),
        ;
        assert((cc * scale) * (share + 1) < ((c + 1) * (g + 1)) * ((c + 1) * (g + 1)));
        assert((c + 1) * (g + 1) <= (h + d) * scale) by (nonlinear_arith)
            requires
                c * g == scale * h + rest_v,
                rest_v < scale,
                d == (c + g + 1) / scale + 2,
                scale > 0,
                0 <= c,
                0 <= g,
        ;
        assert(hh * scale < (h + d) * (h + d)) by (nonlinear_arith)
            requires
                hh * square <= cc * (share + 1),
                (cc * scale) * (share + 1) < ((c + 1) * (g + 1)) * ((c + 1) * (g + 1)),
                0 <= (c + 1) * (g + 1) <= (h + d) * scale,
                square == scale * scale,
                scale > 0,
        ;
        assert(ww * scale < w * w + 2 * h * d + d * d + scale) by (nonlinear_arith)
            requires
                ww == raw,
                raw * scale == hh * scale + t * scale,
                t * scale < n + scale,
                n == w * w - h * h,
                hh * scale < (h + d) * (h + d),
        ;
    }
}

/// The sign of the binding is the sign of `2 mu / origin - w * w`, with `mu` the
/// gravitational parameter and `w` the launch speed. An orbit whose binding is two
/// steps or more above zero has its launch speed below the escape speed; one whose
/// binding is below zero by more than `3 + (2 h d + d * d) / SCALE` steps, with `h` the
/// Hohmann speed and `d` the `speed_slack`, has it above.
pub proof fn binding_follows_the_escape_speed(transfer: Transfer)
    requires
        transfer.wf(),
    ensures
        transfer.spec_binding() >= 2 ==> (transfer.spec_launch_velocity()
            * transfer.spec_launch_velocity()) * transfer.spec_origin_radius() < (2
            * transfer.spec_origin().spec_parent().spec_parameter() * ENERGY_FACTOR) * SCALE,
        (-transfer.spec_binding() - 3) * SCALE >= 2 * transfer.spec_velocity_hohmann()
            * speed_slack(transfer) + speed_slack(transfer) * speed_slack(transfer) ==> (
        transfer.spec_launch_velocity() * transfer.spec_launch_velocity())
            * transfer.spec_origin_radius() > (2
            * transfer.spec_origin().spec_parent().spec_parameter() * ENERGY_FACTOR) * SCALE,
{
    transfer.spec_origin().lemma_speed_bounds();
    transfer.lemma_hohmann_bounds();
    transfer.lemma_launch_bounds();
    launch_energy_follows_the_speed(transfer);
    let scale = SCALE as int;
    let w = transfer.spec_launch_velocity();
    let h = transfer.spec_velocity_hohmann();
    let cc = transfer.spec_circular_squared();
    let ww = transfer.spec_launch_squared();
    let r = transfer.spec_origin_radius();
    let mu = transfer.spec_origin().spec_parent().spec_parameter();
    let e = mu * ENERGY_FACTOR;
    let d = speed_slack(transfer);
    lemma_fundamental_div_mod(e, r);
    let rest = e % r;
    assert(0 <= rest < r && e == r * cc + rest) by (nonlinear_arith)
        requires
            rest == e % r,
            e == r * (e / r) + e % r,
            cc == e / r,
            0 < r,
    ;
    if transfer.spec_binding() >= 2 {
        assert((w * w) * r < ((2 * cc) * scale) * r) by (nonlinear_arith)
            requires
                w * w < (ww + 2) * scale,
                ww + 2 <= 2 * cc,
                scale > 0,
                0 < r,
        ;
        assert(((2 * cc) * scale) * r <= (2 * e) * scale) by (nonlinear_arith)
            requires
                e == r * cc + rest,
                0 <= rest,
                scale > 0,
        ;
    }
    if (-transfer.spec_binding() - 3) * scale >= 2 * h * d + d * d {
        let b = -transfer.spec_binding();
        assert(0 <= 2 * h * d + d * d) by (nonlinear_arith)
            requires
                0 <= h,
                0 <= d,
        ;
        assert(w * w > (2 * cc + 2) * scale) by (nonlinear_arith)
            requires
                ww == 2 * cc + b,
                (b - 3) * scale >= 2 * h * d + d * d,
                ww * scale < w * w + 2 * h * d + d * d + scale,
                scale > 0,
        ;
        assert((w * w) * r > ((2 * cc + 2) * scale) * r) by (nonlinear_arith)
            requires
                w * w > (2 * cc + 2) * scale,
                0 < r,
        ;
        assert(((2 * cc + 2) * scale) * r >= (2 * e) * scale) by (nonlinear_arith)
            requires
                e == r * cc + rest,
                rest < r,
                scale > 0,
        ;
    }
}

/// An orbit bound to the parent is an ellipse with a positive semi-major axis; an
/// orbit that escapes is no ellipse, and its semi-major axis is negative.
pub proof fn axis_has_the_sign_of_the_binding(transfer: Transfer)
    requires
        transfer.wf(),
    ensures
        transfer.spec_binding() > 0 && transfer.spec_sma().is_some()
            ==> transfer.spec_sma().unwrap() > 0,
        transfer.spec_binding() > 0 && transfer.spec_launch_squared() > 0
            ==> transfer.spec_elliptic(),
        transfer.spec_binding() < 0 && transfer.spec_sma().is_some()
            ==> transfer.spec_sma().unwrap() < 0,
        transfer.spec_binding() <= 0 ==> !transfer.spec_elliptic() && transfer.spec_eccentricity()
            >= SCALE,
{
    transfer.spec_origin().lemma_speed_bounds();
    transfer.lemma_launch_bounds();
    let cc = transfer.spec_circular_squared();
    let ww = transfer.spec_launch_squared();
    let r = transfer.spec_origin_radius();
    let b = transfer.spec_binding();
    let scale = SCALE as int;
    let n = r * cc;
    if b > 0 {
        assert(n / b >= 1) by (nonlinear_arith)
            requires
                n == r * cc,
                0 < b <= 2 * cc,
                2 <= r,
        ;
        if ww > 0 {
            let d = ww - cc;
            if d >= 0 {
                assert((d * scale) / cc < scale && d * scale >= 0) by (nonlinear_arith)
                    requires
                        0 <= d < cc,
                        scale == 1_000_000_000_000_000_000,
                ;
            } else {
                assert(((-d) * scale) / cc < scale && -(d * scale) == (-d) * scale && (-d)
                    * scale > 0 && 0 <= ((-d) * scale) / cc) by (nonlinear_arith)
                    requires
                        0 < -d < cc,
                        scale == 1_000_000_000_000_000_000,
                ;
            }
        }
    }
    if b < 0 {
        assert((-n) == r * (-cc) && n > 0) by (nonlinear_arith)
            requires
                n == r * cc,
                0 < cc,
                0 < r,
        ;
        assert(n / (-b) >= 1) by (nonlinear_arith)
            requires
                n == r * cc,
                0 < -b <= 100 * cc,
                100 <= r,
        ;
    }
    if b <= 0 {
        let d = ww - cc;
        assert((d * scale) / cc >= scale && d * scale >= 0) by (nonlinear_arith)
            requires
                d >= cc,
                0 < cc,
                scale == 1_000_000_000_000_000_000,
        ;
    }
}

/// At the Hohmann launch the eccentricity is `(target - origin) / (target + origin)`,
/// to within `SCALE / C + 2` steps of the grid, with `C` the square of the circular
/// speed: to within a hundred and two steps for every orbit in range.
pub proof fn hohmann_eccentricity(transfer: Transfer)
    requires
        transfer.wf(),
        transfer.spec_add_delta_v().mps == 0,
    ensures
        magnitude(
            transfer.spec_eccentricity() * (transfer.spec_origin_radius()
                + transfer.spec_target_radius()) - (transfer.spec_target_radius()
                - transfer.spec_origin_radius()) * SCALE,
        ) * transfer.spec_circular_squared() <= (transfer.spec_origin_radius()
            + transfer.spec_target_radius()) * (SCALE + transfer.spec_circular_squared()),
        (SCALE as int) / transfer.spec_circular_squared() <= 100,
{
    transfer.spec_origin().lemma_speed_bounds();
    transfer.lemma_hohmann_bounds();
    transfer.lemma_launch_bounds();
    let scale = SCALE as int;
    let cc = transfer.spec_circular_squared();
    let r1 = transfer.spec_origin_radius();
    let r2 = transfer.spec_target_radius();
    let sum = r1 + r2;
    let hh = transfer.spec_hohmann_squared();
    let h = transfer.spec_velocity_hohmann();
    assert((2 * h + 0) * 0 == 0) by (nonlinear_arith);
    assert(0int / scale == 0) by (nonlinear_arith)
        requires
            scale == 1_000_000_000_000_000_000,
    ;
    assert(transfer.spec_launch_squared() == hh);
    lemma_fundamental_div_mod(cc * (2 * r2), sum);
    let rest = (cc * (2 * r2)) % sum;
    assert(0 <= rest < sum) by (nonlinear_arith)
        requires
            rest == (cc * (2 * r2)) % sum,
            0 < sum,
    ;
    let d = hh - cc;
    assert(d * sum == (r2 - r1) * cc - rest) by (nonlinear_arith)
        requires
            cc * (2 * r2) == sum * hh + rest,
            d == hh - cc,
            sum == r1 + r2,
    ;
    let e = transfer.spec_eccentricity();
    let n = d * scale;
    // e * C is n, up to less than one C
    assert(magnitude(e * cc - n) < cc) by {
        if n >= 0 {
            lemma_fundamental_div_mod(n, cc);
            assert(0 <= n % cc < cc) by (nonlinear_arith)
                requires
                    0 < cc,
            ;
            assert(cc * (n / cc) == (n / cc) * cc) by (nonlinear_arith);
        } else {
            lemma_fundamental_div_mod(-n, cc);
            assert(0 <= (-n) % cc < cc) by (nonlinear_arith)
                requires
                    0 < cc,
            ;
            assert(cc * ((-n) / cc) == ((-n) / cc) * cc && (-((-n) / cc)) * cc == -(((-n) / cc)
                * cc)) by (nonlinear_arith);
        }
    }
    assert(magnitude(e * sum - (r2 - r1) * scale) * cc <= sum * (scale + cc))
        by (nonlinear_arith)
        requires
            magnitude(e * cc - n) < cc,
            n == d * scale,
            d * sum == (r2 - r1) * cc - rest,
            0 <= rest < sum,
            0 < cc,
            0 < sum,
            scale > 0,
    ;
    assert(scale / cc <= 100) by (nonlinear_arith)
        requires
            cc >= 10_000_000_000_000_000,
            scale == 1_000_000_000_000_000_000,
    ;
}

/// The Hohmann speed is above zero and below the escape speed, the square root of two
/// circular speeds.
pub proof fn hohmann_speed_below_escape(transfer: Transfer)
    requires
        transfer.spec_origin().wf(),
        transfer.spec_target().wf(),
    ensures
        0 < transfer.spec_velocity_hohmann(),
        transfer.spec_velocity_hohmann() * transfer.spec_velocity_hohmann() < 2 * (
        transfer.spec_circular() * transfer.spec_circular()),
{
    transfer.spec_origin().lemma_speed_bounds();
    transfer.lemma_hohmann_bounds();
    let c = transfer.spec_circular();
    let h = transfer.spec_velocity_hohmann();
    let g = transfer.spec_hohmann_factor();
    let r1 = transfer.spec_origin_radius();
    let r2 = transfer.spec_target_radius();
    let scale = SCALE as int;
    let square = 1_000_000_000_000_000_000_000_000_000_000_000_000int;
    let share = transfer.spec_hohmann_ratio();
    assert(share < 2 * square) by (nonlinear_arith)
        requires
            share == (2 * r2) * square / (r1 + r2),
            0 < r1,
            0 < r2,
            square > 0,
    ;
    lemma_fundamental_div_mod(c * g, scale);
    assert((h * scale) * (h * scale) <= (c * c) * (g * g)) by (nonlinear_arith)
        requires
            c * g == scale * (c * g / scale) + (c * g) % scale,
            h == c * g / scale,
            0 <= (c * g) % scale,
            0 <= h,
            scale > 0,
    ;
    assert((c * c) * (g * g) < (c * c) * (2 * square)) by (nonlinear_arith)
        requires
            g * g <= share,
            share < 2 * square,
            0 < c,
    ;
    assert(h * h < 2 * (c * c)) by (nonlinear_arith)
        requires
            (h * scale) * (h * scale) <= (c * c) * (g * g),
            (c * c) * (g * g) < (c * c) * (2 * square),
            square == scale * scale,
            scale > 0,
    ;
}

/// At the Hohmann launch the semi-major axis is half the sum of the two radii: never
/// more, and less by at most the share `(origin + target) / (2 * C * origin)` of it and
/// two steps, with `C` the square of the circular speed.
pub proof fn hohmann_axis(transfer: Transfer)
    requires
        transfer.wf(),
        transfer.spec_add_delta_v().mps == 0,
    ensures
        transfer.spec_sma().is_some(),
        2 * transfer.spec_sma().unwrap() <= transfer.spec_origin_radius()
            + transfer.spec_target_radius(),
        (transfer.spec_origin_radius() + transfer.spec_target_radius() - 2
            * transfer.spec_sma().unwrap() - 2) * (2 * (transfer.spec_circular_squared()
            * transfer.spec_origin_radius())) < (transfer.spec_origin_radius()
            + transfer.spec_target_radius() + 2) * (transfer.spec_origin_radius()
            + transfer.spec_target_radius()),
{
    transfer.spec_origin().lemma_speed_bounds();
    transfer.lemma_hohmann_bounds();
    transfer.lemma_launch_bounds();
    let scale = SCALE as int;
    let cc = transfer.spec_circular_squared();
    let r1 = transfer.spec_origin_radius();
    let r2 = transfer.spec_target_radius();
    let sum = r1 + r2;
    let hh = transfer.spec_hohmann_squared();
    let h = transfer.spec_velocity_hohmann();
    assert((2 * h + 0) * 0 == 0) by (nonlinear_arith);
    assert(0int / scale == 0) by (nonlinear_arith)
        requires
            scale == 1_000_000_000_000_000_000,
    ;
    assert(transfer.spec_launch_squared() == hh);
    lemma_fundamental_div_mod(cc * (2 * r2), sum);
    let rest = (cc * (2 * r2)) % sum;
    assert(0 <= rest < sum) by (nonlinear_arith)
        requires
            rest == (cc * (2 * r2)) % sum,
            0 < sum,
    ;
    let b = 2 * cc - hh;
    let energy = cc * r1;
    assert(b * sum == 2 * energy + rest) by (nonlinear_arith)
        requires
            cc * (2 * r2) == sum * hh + rest,
            b == 2 * cc - hh,
            sum == r1 + r2,
            energy == cc * r1,
    ;
    assert(0 < energy) by (nonlinear_arith)
        requires
            energy == cc * r1,
            0 < cc,
            0 < r1,
    ;
    assert(0 < b) by (nonlinear_arith)
        requires
            b * sum == 2 * energy + rest,
            0 < energy,
            0 <= rest,
            0 < sum,
    ;
    assert(r1 * cc == energy) by (nonlinear_arith)
        requires
            energy == cc * r1,
    ;
    lemma_fundamental_div_mod(energy, b);
    let a = energy / b;
    let left = energy % b;
    assert(0 <= left < b && energy == b * a + left) by (nonlinear_arith)
        requires
            left == energy % b,
            energy == b * (energy / b) + energy % b,
            a == energy / b,
            0 < b,
    ;
    assert(0 <= a) by (nonlinear_arith)
        requires
            energy == b * a + left,
            left < b,
            0 < energy,
            0 < b,
    ;
    // twice the axis is at most the sum
    assert((2 * a) * (b * sum) <= sum * (b * sum)) by (nonlinear_arith)
        requires
            energy == b * a + left,
            0 <= left,
            b * sum == 2 * energy + rest,
            0 <= rest,
            0 < sum,
            0 <= a,
            0 < b,
    ;
    assert(2 * a <= sum) by (nonlinear_arith)
        requires
            (2 * a) * (b * sum) <= sum * (b * sum),
            0 < b * sum,
    ;
    // and more than the sum less its share
    assert((sum - 2 * a - 2) * (2 * energy) < (sum + 2) * sum) by (nonlinear_arith)
        requires
            energy == b * a + left,
            left < b,
            b * sum == 2 * energy + rest,
            0 <= rest < sum,
            2 * a <= sum,
            0 <= a,
            0 < b,
            0 < energy,
    ;
}

/// A Hohmann transfer arrives at the apse opposite to its departure: the cosine of the
/// true anomaly on arrival is minus one, wherever the energy gained or lost, `W - C`,
/// times the target radius is more than two hundred thousand times the origin radius
/// and twice the target radius.
pub proof fn hohmann_arrives_at_the_far_apse(transfer: Transfer)
    requires
        transfer.wf(),
        transfer.spec_add_delta_v().mps == 0,
        magnitude(transfer.spec_hohmann_squared() - transfer.spec_circular_squared())
            * transfer.spec_target_radius() > 200_000 * (transfer.spec_origin_radius() + 2
            * transfer.spec_target_radius()),
    ensures
        transfer.spec_target_true_anomaly_arrival_cos() == -SCALE,
{
    transfer.spec_origin().lemma_speed_bounds();
    transfer.lemma_hohmann_bounds();
    transfer.lemma_launch_bounds();
    let scale = SCALE as int;
    let cc = transfer.spec_circular_squared();
    let r1 = transfer.spec_origin_radius();
    let r2 = transfer.spec_target_radius();
    let sum = r1 + r2;
    let hh = transfer.spec_hohmann_squared();
    let h = transfer.spec_velocity_hohmann();
    assert((2 * h + 0) * 0 == 0) by (nonlinear_arith);
    assert(0int / scale == 0) by (nonlinear_arith)
        requires
            scale == 1_000_000_000_000_000_000,
    ;
    assert(transfer.spec_launch_squared() == hh);
    lemma_fundamental_div_mod(cc * (2 * r2), sum);
    let rest = (cc * (2 * r2)) % sum;
    assert(0 <= rest < sum) by (nonlinear_arith)
        requires
            rest == (cc * (2 * r2)) % sum,
            0 < sum,
    ;
    let reach = transfer.spec_reach(r2);
    lemma_fundamental_div_mod(hh * r1, r2);
    let cut = (hh * r1) % r2;
    assert(0 <= cut < r2) by (nonlinear_arith)
        requires
            cut == (hh * r1) % r2,
            0 < r2,
    ;
    let n = reach - cc;
    let d = hh - cc;
    let gap = -(n + d);
    assert(gap * r2 == rest + cut) by (nonlinear_arith)
        requires
            cc * (2 * r2) == sum * hh + rest,
            hh * r1 == r2 * reach + cut,
            gap == -(reach - cc + hh - cc),
            sum == r1 + r2,
    ;
    assert(0 <= gap && gap * r2 < r1 + 2 * r2) by (nonlinear_arith)
        requires
            gap * r2 == rest + cut,
            0 <= rest < r1 + r2,
            0 <= cut < r2,
            0 < r2,
    ;
    let size = magnitude(d);
    assert(400_000 * gap < 2 * size) by (nonlinear_arith)
        requires
            size * r2 > 200_000 * (r1 + 2 * r2),
            gap * r2 < r1 + 2 * r2,
            0 <= gap,
            0 < r2,
    ;
    let top = n * 100_000;
    if d > 0 {
        // the dividend is below zero by a hundred thousand divisors and a little
        assert(magnitude(top) == 100_000 * d + 100_000 * gap);
        vstd::arithmetic::div_mod::lemma_fundamental_div_mod_converse(
            100_000 * d + 100_000 * gap,
            d,
            100_000,
            100_000 * gap,
        );
    } else {
        assert(magnitude(top) == 100_000 * size - 100_000 * gap);
        if gap == 0 {
            vstd::arithmetic::div_mod::lemma_fundamental_div_mod_converse(
                100_000 * size,
                size,
                100_000,
                0,
            );
        } else {
            vstd::arithmetic::div_mod::lemma_fundamental_div_mod_converse(
                100_000 * size - 100_000 * gap,
                size,
                99_999,
                size - 100_000 * gap,
            );
        }
    }
}

/// The range of delta-v offered runs from the Hohmann delta-v upward toward a target
/// outside the origin, and downward toward any other; its two ends are never the same.
pub proof fn velocity_range_runs_toward_the_target(transfer: Transfer)
    requires
        transfer.spec_origin().wf(),
        transfer.spec_target().wf(),
    ensures
        transfer.spec_origin_radius() < transfer.spec_target_radius()
            ==> transfer.spec_max_velocity() > transfer.spec_delta_v_hohmann(),
        transfer.spec_origin_radius() >= transfer.spec_target_radius()
            ==> transfer.spec_max_velocity() < transfer.spec_delta_v_hohmann(),
{
    transfer.lemma_hohmann_bounds();
    let h = transfer.spec_velocity_hohmann();
    let n = h * 600_000_000_000_000_000;
    assert(n >= 1_000_000_000_000_000_000 && magnitude(n) == n) by (nonlinear_arith)
        requires
            n == h * 600_000_000_000_000_000,
            100_000_000_000 <= h,
            magnitude(n) == if n >= 0 {
                n
            } else {
                -n
            },
    ;
    crate::fixed::lemma_nearest_ratio_threshold(n, SCALE as int, 1);
}

/// The unit a span is shown in counts at least one, unless it is the second; and no
/// unit above it does.
pub proof fn smallest_scale_counts_one(span: Duration)
    ensures
        span.spec_smallest_scale() != TimeScale::Seconds ==> span.in_scale(
            span.spec_smallest_scale(),
        ) >= SCALE,
        span.spec_smallest_scale() != TimeScale::Years ==> span.y < SCALE,
        span.spec_smallest_scale() == TimeScale::Seconds ==> span.min < SCALE && span.h < SCALE
            && span.d < SCALE && span.m < SCALE,
        span.spec_smallest_scale() == TimeScale::Minutes ==> span.h < SCALE && span.d < SCALE
            && span.m < SCALE,
        span.spec_smallest_scale() == TimeScale::Hours ==> span.d < SCALE && span.m < SCALE,
        span.spec_smallest_scale() == TimeScale::Days ==> span.m < SCALE,
{
}

} // verus!
