//! The transfer orbit between two circular orbits around one parent.
//!
//! A transfer leaves the origin orbit along its direction of motion. With `C` the
//! square of the circular speed on the origin orbit, the gravitational parameter over
//! the radius, and `W` the square of the launch speed, every element of the transfer
//! orbit is a rational function of `C`, `W` and the two radii.

use crate::angle::{normalize, spec_normalize, PI, TAU};
use crate::fixed::{
    checked_mul_div, clamp, fits, is_sqrt_floor, isqrt, isqrt_scaled, lemma_sqrt_floor_exists,
    magnitude, mul_div, mul_div_floor, mul_div_nearest, nearest_ratio, ratio, sqrt_floor, SCALE,
};
use crate::orbit::{Parent, Planet, RADIUS_MAX, RADIUS_MIN};
use crate::quantities::{Distance, Duration, Velocity};
use vstd::prelude::*;

verus! {

/// The launch speed may be at most this many times the circular speed.
pub const LAUNCH_FACTOR: i128 = 10;

/// Share of the Hohmann speed by which the launch may differ from it: six tenths.
pub const RANGE_SHARE: i128 = 600_000_000_000_000_000;

/// What the share of the target in the sum of the radii is scaled by before its root
/// is taken: the grid squared.
pub const FACTOR_SCALE: u128 = 1_000_000_000_000_000_000_000_000_000_000_000_000;

/// Steps of the grid in one step of the five fractional digits that the cosine of a
/// true anomaly is rounded to.
pub const COSINE_STEP: i128 = 10_000_000_000_000;

/// Largest size of an anomaly or of its sine that the library computes with.
pub const ANOMALY_MAX: i128 = 100_000_000_000_000_000_000_000_000_000_000_000;

/// Largest size of a mean or true anomaly that the library computes a time or a phase
/// from: a hundred thousand radians.
pub const MEAN_MAX: i128 = 100_000_000_000_000_000_000_000;

/// Largest size of a time of flight that the library computes a phase from.
pub const TIME_MAX: i128 = 1_000_000_000_000_000_000_000_000_000_000_000;

/// The two planets of a transfer orbit different parents.
#[derive(Clone, Copy, Debug, PartialEq, Eq, Structural)]
pub struct IncompatibleParents;

/// A transfer from one circular orbit to another.
#[derive(Clone, Copy, Debug)]
pub struct Transfer {
    origin: Planet,
    target: Planet,
    parent: Parent,
    add_delta_v: Velocity,
}

impl Transfer {
    pub closed spec fn spec_origin(&self) -> Planet {
        self.origin
    }

    pub closed spec fn spec_target(&self) -> Planet {
        self.target
    }

    pub closed spec fn spec_parent(&self) -> Parent {
        self.parent
    }

    /// What the launch speed has beyond the Hohmann speed.
    pub closed spec fn spec_add_delta_v(&self) -> Velocity {
        self.add_delta_v
    }

    /// Radius of the origin orbit.
    pub open spec fn spec_origin_radius(&self) -> int {
        self.spec_origin().spec_sma().m as int
    }

    /// Radius of the target orbit.
    pub open spec fn spec_target_radius(&self) -> int {
        self.spec_target().spec_sma().m as int
    }

    /// Circular speed on the origin orbit.
    pub open spec fn spec_circular(&self) -> int {
        self.spec_origin().spec_orbital_velocity()
    }

    /// Square of the circular speed on the origin orbit: the gravitational parameter
    /// over the radius.
    pub open spec fn spec_circular_squared(&self) -> int {
        self.spec_origin().spec_speed_squared()
    }

    /// Square of the Hohmann departure speed, `C * 2 * target / (origin + target)`.
    pub open spec fn spec_hohmann_squared(&self) -> int {
        self.spec_circular_squared() * (2 * self.spec_target_radius()) / (
        self.spec_origin_radius() + self.spec_target_radius())
    }

    /// Twice the share of the target radius in the sum of the radii, scaled by
    /// `FACTOR_SCALE`.
    pub open spec fn spec_hohmann_ratio(&self) -> int {
        (2 * self.spec_target_radius()) * FACTOR_SCALE / (self.spec_origin_radius()
            + self.spec_target_radius())
    }

    /// What the circular speed is multiplied by for the Hohmann speed,
    /// `sqrt(2 * target / (origin + target))`.
    pub open spec fn spec_hohmann_factor(&self) -> int {
        sqrt_floor(self.spec_hohmann_ratio())
    }

    /// The Hohmann departure speed, `c * sqrt(2 * target / (origin + target))`.
    pub open spec fn spec_velocity_hohmann(&self) -> int {
        self.spec_circular() * self.spec_hohmann_factor() / (SCALE as int)
    }

    /// What a Hohmann departure adds to the circular speed.
    pub open spec fn spec_delta_v_hohmann(&self) -> int {
        self.spec_velocity_hohmann() - self.spec_circular()
    }

    /// The speed right after departure.
    pub open spec fn spec_launch_velocity(&self) -> int {
        self.spec_velocity_hohmann() + self.spec_add_delta_v().mps
    }

    /// Square of the launch speed: the square of the Hohmann speed, and what the
    /// offset `a` from the Hohmann speed `h` adds to it, `(2 h + a) * a`; never below
    /// zero.
    pub open spec fn spec_launch_squared(&self) -> int {
        let raw = self.spec_hohmann_squared() + ratio(
            (2 * self.spec_velocity_hohmann() + self.spec_add_delta_v().mps)
                * self.spec_add_delta_v().mps,
            SCALE as int,
        );
        if raw < 0 {
            0
        } else {
            raw
        }
    }

    /// The eccentricity, `W / C - 1`: negative when the origin is the far end of the
    /// transfer orbit, above one on a hyperbola.
    pub open spec fn spec_eccentricity(&self) -> int {
        ratio(
            (self.spec_launch_squared() - self.spec_circular_squared()) * SCALE,
            self.spec_circular_squared(),
        )
    }

    /// The largest delta-v offered for this transfer.
    pub open spec fn spec_max_velocity(&self) -> int {
        let share = nearest_ratio(self.spec_velocity_hohmann() * RANGE_SHARE, SCALE as int);
        if self.spec_origin_radius() < self.spec_target_radius() {
            self.spec_delta_v_hohmann() + share
        } else {
            self.spec_delta_v_hohmann() - share
        }
    }

    /// Both planets are in range and share a parent, and the launch speed is at most
    /// `LAUNCH_FACTOR` times the circular speed.
    pub open spec fn wf(&self) -> bool {
        &&& self.spec_origin().wf()
        &&& self.spec_target().wf()
        &&& self.spec_origin().spec_parent().spec_parameter()
            == self.spec_target().spec_parent().spec_parameter()
        &&& self.spec_parent() == self.spec_origin().spec_parent()
        &&& self.spec_add_delta_v().wf()
        &&& magnitude(self.spec_launch_velocity()) <= LAUNCH_FACTOR * self.spec_circular()
    }

    /// The Hohmann speed lies above zero and at most at one and a half circular speeds.
    pub proof fn lemma_hohmann_bounds(&self)
        requires
            self.spec_origin().wf(),
            self.spec_target().wf(),
        ensures
            0 <= self.spec_hohmann_squared() <= 2 * self.spec_circular_squared(),
            1_000_000_000_000_000_000_000_000 <= self.spec_hohmann_ratio()
                <= 2_000_000_000_000_000_000_000_000_000_000_000_000,
            is_sqrt_floor(self.spec_hohmann_ratio(), self.spec_hohmann_factor()),
            1_000_000_000_000 <= self.spec_hohmann_factor() <= 1_414_213_562_373_095_049,
            100_000_000_000 <= self.spec_velocity_hohmann(),
            2 * self.spec_velocity_hohmann() <= 3 * self.spec_circular(),
    {
        self.spec_origin().lemma_speed_bounds();
        let c = self.spec_circular();
        let cc = self.spec_circular_squared();
        let r1 = self.spec_origin_radius();
        let r2 = self.spec_target_radius();
        let n = self.spec_hohmann_squared();
        assert(0 <= n <= 2 * cc) by (nonlinear_arith)
            requires
                n == cc * (2 * r2) / (r1 + r2),
                0 <= cc,
                0 < r1,
                0 < r2,
        ;
        let share = self.spec_hohmann_ratio();
        assert(1_000_000_000_000_000_000_000_000 <= share
            <= 2_000_000_000_000_000_000_000_000_000_000_000_000) by (nonlinear_arith)
            requires
                share == (2 * r2) * 1_000_000_000_000_000_000_000_000_000_000_000_000 / (r1
                    + r2),
                10_000_000_000_000_000_000_000 <= r1
                    <= 10_000_000_000_000_000_000_000_000_000_000,
                10_000_000_000_000_000_000_000 <= r2
                    <= 10_000_000_000_000_000_000_000_000_000_000,
        ;
        lemma_sqrt_floor_exists(share);
        let g = self.spec_hohmann_factor();
        if g > 1_414_213_562_373_095_049 {
            assert(g * g >= 1_414_213_562_373_095_050 * 1_414_213_562_373_095_050)
                by (nonlinear_arith)
                requires
                    g >= 1_414_213_562_373_095_050,
            ;
        }
        if g < 1_000_000_000_000 {
            assert((g + 1) * (g + 1) <= 1_000_000_000_000 * 1_000_000_000_000)
                by (nonlinear_arith)
                requires
                    0 <= g < 1_000_000_000_000,
            ;
        }
        let h = self.spec_velocity_hohmann();
        assert(100_000_000_000 <= h && 2 * h <= 3 * c) by (nonlinear_arith)
            requires
                h == c * g / 1_000_000_000_000_000_000,
                1_000_000_000_000 <= g <= 1_414_213_562_373_095_049,
                100_000_000_000_000_000 <= c,
        ;
    }

    /// The launch energy lies between zero and a hundred and two circular energies.
    pub proof fn lemma_launch_bounds(&self)
        requires
            self.wf(),
        ensures
            0 <= self.spec_launch_squared() <= 102 * self.spec_circular_squared(),
            10_000_000_000_000_000 <= self.spec_circular_squared() <= 1_400_000_000_000_000_000_000_000_000_000_000_000,
            magnitude(
                (2 * self.spec_velocity_hohmann() + self.spec_add_delta_v().mps)
                    * self.spec_add_delta_v().mps,
            ) <= (100 * self.spec_circular_squared()) * SCALE,
    {
        self.spec_origin().lemma_speed_bounds();
        self.lemma_hohmann_bounds();
        let c = self.spec_circular();
        let cc = self.spec_circular_squared();
        let h = self.spec_velocity_hohmann();
        let hh = self.spec_hohmann_squared();
        let a = self.spec_add_delta_v().mps as int;
        let w = self.spec_launch_velocity();
        let n = (2 * h + a) * a;
        assert(n == w * w - h * h) by (nonlinear_arith)
            requires
                n == (2 * h + a) * a,
                w == h + a,
        ;
        assert(0 <= w * w <= 100 * (c * c)) by (nonlinear_arith)
            requires
                -10 * c <= w <= 10 * c,
                0 <= c,
        ;
        assert(0 <= h * h <= 100 * (c * c)) by (nonlinear_arith)
            requires
                0 <= 2 * h <= 3 * c,
        ;
        assert(100 * (c * c) <= (100 * cc) * SCALE) by (nonlinear_arith)
            requires
                c * c <= cc * SCALE,
        ;
        if n >= 0 {
            assert(0 <= n / (SCALE as int) <= 100 * cc) by (nonlinear_arith)
                requires
                    0 <= n <= (100 * cc) * SCALE,
                    SCALE == 1_000_000_000_000_000_000,
            ;
        } else {
            assert(0 <= (-n) / (SCALE as int)) by (nonlinear_arith)
                requires
                    0 < -n,
                    SCALE == 1_000_000_000_000_000_000,
            ;
        }
    }

    /// A transfer launched at the Hohmann speed.
    pub fn new(origin: Planet, target: Planet) -> (transfer: Transfer)
        requires
            origin.wf(),
            target.wf(),
            origin.spec_parent().spec_parameter() == target.spec_parent().spec_parameter(),
        ensures
            transfer.wf(),
            transfer.spec_origin() == origin,
            transfer.spec_target() == target,
            transfer.spec_parent() == origin.spec_parent(),
            transfer.spec_add_delta_v() == Velocity::spec_from_meters_per_second(0),
    {
        let transfer = Transfer {
            origin,
            target,
            parent: origin.parent(),
            add_delta_v: Velocity::from_meters_per_second(0),
        };
        proof {
            transfer.lemma_hohmann_bounds();
            origin.lemma_speed_bounds();
            crate::fixed::lemma_nearest_of_multiple(0, 1_000);
        }
        transfer
    }

    /// A transfer launched at the Hohmann speed, or the error when the planets do not
    /// share the gravitational field of one parent.
    pub fn try_new(origin: Planet, target: Planet) -> (made: Result<Transfer, IncompatibleParents>)
        requires
            origin.wf(),
            target.wf(),
        ensures
            made.is_ok() <==> origin.spec_parent().spec_parameter()
                == target.spec_parent().spec_parameter(),
            made.is_ok() ==> {
                &&& made.unwrap().wf()
                &&& made.unwrap().spec_origin() == origin
                &&& made.unwrap().spec_target() == target
                &&& made.unwrap().spec_parent() == origin.spec_parent()
                &&& made.unwrap().spec_add_delta_v() == Velocity::spec_from_meters_per_second(0)
            },
    {
        if origin.parent().mass().gravitational_parameter
            == target.parent().mass().gravitational_parameter {
            Ok(Self::new(origin, target))
        } else {
            Err(IncompatibleParents)
        }
    }

    pub fn origin(&self) -> (origin: Planet)
        ensures
            origin == self.spec_origin(),
    {
        self.origin
    }

    pub fn target(&self) -> (target: Planet)
        ensures
            target == self.spec_target(),
    {
        self.target
    }

    /// Square of the circular speed on the origin orbit.
    fn circular_squared(&self) -> (squared: i128)
        requires
            self.spec_origin().wf(),
        ensures
            squared == self.spec_circular_squared(),
            10_000_000_000_000_000 <= squared <= 1_400_000_000_000_000_000_000_000_000_000_000_000,
    {
        proof {
            self.spec_origin().lemma_speed_bounds();
        }
        let squared: u128 = mul_div_floor(
            self.origin.parent().mass().gravitational_parameter,
            crate::orbit::ENERGY_FACTOR,
            self.origin.sma().m as u128,
        );
        squared as i128
    }

    /// Square of the Hohmann departure speed.
    fn hohmann_squared(&self) -> (squared: i128)
        requires
            self.spec_origin().wf(),
            self.spec_target().wf(),
        ensures
            squared == self.spec_hohmann_squared(),
            0 <= squared <= 2 * self.spec_circular_squared(),
    {
        proof {
            self.lemma_hohmann_bounds();
            self.spec_origin().lemma_speed_bounds();
        }
        let circular: i128 = self.circular_squared();
        let squared: u128 = mul_div_floor(
            circular as u128,
            (2 * self.target.sma().m) as u128,
            (self.origin.sma().m + self.target.sma().m) as u128,
        );
        squared as i128
    }

    /// The departure speed of the two-impulse transfer of least delta-v.
    pub fn velocity_hohmann(&self) -> (v: Velocity)
        requires
            self.spec_origin().wf(),
            self.spec_target().wf(),
        ensures
            v == Velocity::spec_from_meters_per_second(self.spec_velocity_hohmann()),
            v.mps == self.spec_velocity_hohmann(),
            v.wf(),
    {
        proof {
            self.lemma_hohmann_bounds();
            self.spec_origin().lemma_speed_bounds();
        }
        let share: u128 = mul_div_floor(
            (2 * self.target.sma().m) as u128,
            FACTOR_SCALE,
            (self.origin.sma().m + self.target.sma().m) as u128,
        );
        let factor: u128 = isqrt(share);
        let circular: i128 = self.origin.orbital_velocity().mps;
        proof {
            let c = circular as int;
            let g = factor as int;
            assert(0 <= c * g / (SCALE as int) <= 2 * c) by (nonlinear_arith)
                requires
                    0 <= c,
                    0 <= g <= 1_414_213_562_373_095_049,
                    SCALE == 1_000_000_000_000_000_000,
            ;
        }
        let speed: u128 = mul_div_floor(circular as u128, factor, SCALE as u128);
        Velocity::from_meters_per_second(speed as i128)
    }

    /// What a Hohmann departure adds to the circular speed of the origin.
    pub fn delta_v_hohmann(&self) -> (v: Velocity)
        requires
            self.spec_origin().wf(),
            self.spec_target().wf(),
        ensures
            v == Velocity::spec_from_meters_per_second(self.spec_delta_v_hohmann()),
            v.mps == self.spec_delta_v_hohmann(),
            v.wf(),
    {
        proof {
            self.lemma_hohmann_bounds();
            self.spec_origin().lemma_speed_bounds();
        }
        self.velocity_hohmann().sub(self.origin.orbital_velocity())
    }

    /// Whether `set_delta_v` takes this delta-v: the launch speed it gives is at most
    /// `LAUNCH_FACTOR` times the circular speed.
    pub open spec fn spec_accepts(&self, delta_v: Velocity) -> bool {
        magnitude(self.spec_circular() + delta_v.mps) <= LAUNCH_FACTOR * self.spec_circular()
    }

    /// Whether `set_delta_v` takes this delta-v.
    pub fn accepts(&self, delta_v: Velocity) -> (ok: bool)
        requires
            self.spec_origin().wf(),
        ensures
            ok == self.spec_accepts(delta_v),
    {
        proof {
            self.spec_origin().lemma_speed_bounds();
        }
        let circular: i128 = self.origin.orbital_velocity().mps;
        let limit: i128 = LAUNCH_FACTOR * circular;
        -limit - circular <= delta_v.mps && delta_v.mps <= limit - circular
    }

    /// Records the delta-v wanted at departure, counted from the circular speed, as an
    /// offset from the Hohmann speed.
    pub fn set_delta_v(&mut self, delta_v: Velocity)
        requires
            old(self).wf(),
            old(self).spec_accepts(delta_v),
        ensures
            final(self).wf(),
            final(self).spec_origin() == old(self).spec_origin(),
            final(self).spec_target() == old(self).spec_target(),
            final(self).spec_parent() == old(self).spec_parent(),
            final(self).spec_add_delta_v() == Velocity::spec_from_meters_per_second(
                delta_v.mps - old(self).spec_delta_v_hohmann(),
            ),
            final(self).spec_launch_velocity() == old(self).spec_circular() + delta_v.mps,
    {
        proof {
            self.lemma_hohmann_bounds();
            self.spec_origin().lemma_speed_bounds();
        }
        let hohmann: Velocity = self.delta_v_hohmann();
        self.add_delta_v = Velocity::from_meters_per_second(delta_v.mps - hohmann.mps);
    }

    /// The speed right after departure.
    pub fn launch_velocity(&self) -> (v: Velocity)
        requires
            self.wf(),
        ensures
            v == Velocity::spec_from_meters_per_second(self.spec_launch_velocity()),
            v.mps == self.spec_launch_velocity(),
            v.wf(),
    {
        proof {
            self.lemma_hohmann_bounds();
            self.spec_origin().lemma_speed_bounds();
        }
        self.velocity_hohmann().add(self.add_delta_v)
    }

    /// The least delta-v offered: that of the Hohmann transfer.
    pub fn min_velocity(&self) -> (v: Velocity)
        requires
            self.spec_origin().wf(),
            self.spec_target().wf(),
        ensures
            v == Velocity::spec_from_meters_per_second(self.spec_delta_v_hohmann()),
            v.mps == self.spec_delta_v_hohmann(),
            v.wf(),
    {
        self.delta_v_hohmann()
    }

    /// The other end of the range of delta-v offered: the Hohmann delta-v, plus six
    /// tenths of the Hohmann speed for a target outside the origin, less them for one
    /// inside.
    pub fn max_velocity(&self) -> (v: Velocity)
        requires
            self.spec_origin().wf(),
            self.spec_target().wf(),
        ensures
            v == Velocity::spec_from_meters_per_second(self.spec_max_velocity()),
            v.mps == self.spec_max_velocity(),
            v.wf(),
    {
        proof {
            self.lemma_hohmann_bounds();
            self.spec_origin().lemma_speed_bounds();
        }
        let hohmann: Velocity = self.velocity_hohmann();
        proof {
            let h = hohmann.mps as int;
            let n = h * RANGE_SHARE;
            assert(0 <= n <= h * SCALE) by (nonlinear_arith)
                requires
                    n == h * RANGE_SHARE,
                    0 <= h,
                    RANGE_SHARE == 600_000_000_000_000_000,
                    SCALE == 1_000_000_000_000_000_000,
            ;
            crate::fixed::lemma_ratio_magnitude(n, SCALE as int, h);
            crate::fixed::lemma_nearest_ratio_threshold(n, SCALE as int, 0);
        }
        let share: Velocity = hohmann.mul(RANGE_SHARE);
        if self.origin.sma().m < self.target.sma().m {
            self.delta_v_hohmann().add(share)
        } else {
            self.delta_v_hohmann().sub(share)
        }
    }

    /// The launch energy.
    fn launch_squared(&self) -> (squared: i128)
        requires
            self.wf(),
        ensures
            squared == self.spec_launch_squared(),
            0 <= squared <= 102 * self.spec_circular_squared(),
    {
        proof {
            self.lemma_hohmann_bounds();
            self.lemma_launch_bounds();
            self.spec_origin().lemma_speed_bounds();
        }
        let hohmann: i128 = self.velocity_hohmann().mps;
        let squared: i128 = self.hohmann_squared();
        let offset: i128 = self.add_delta_v.mps;
        proof {
            let n = (2 * hohmann + offset) * offset;
            crate::fixed::lemma_ratio_magnitude(
                n,
                SCALE as int,
                100 * self.spec_circular_squared(),
            );
        }
        let raw: i128 = squared + mul_div(2 * hohmann + offset, offset, SCALE);
        if raw < 0 {
            0
        } else {
            raw
        }
    }

    /// The eccentricity of the transfer orbit.
    pub fn eccentricity(&self) -> (e: i128)
        requires
            self.wf(),
        ensures
            e == self.spec_eccentricity(),
            -SCALE <= e <= 101 * SCALE,
    {
        let circular: i128 = self.circular_squared();
        let launch: i128 = self.launch_squared();
        proof {
            let cc = circular as int;
            let d = launch - circular;
            assert((-(SCALE as int)) * cc <= d * SCALE <= (101 * SCALE) * cc) by (nonlinear_arith)
                requires
                    -cc <= d <= 101 * cc,
                    SCALE == 1_000_000_000_000_000_000,
            ;
            crate::fixed::lemma_ratio_bounds(d * SCALE, cc, -(SCALE as int), 101 * SCALE);
        }
        mul_div(launch - circular, SCALE, circular)
    }

    /// Twice the circular energy less the launch energy: positive on an ellipse,
    /// negative on a hyperbola, zero on a parabola.
    pub open spec fn spec_binding(&self) -> int {
        2 * self.spec_circular_squared() - self.spec_launch_squared()
    }

    /// The orbit is a parabola: it has no semi-major axis.
    pub open spec fn spec_parabolic(&self) -> bool {
        self.spec_binding() == 0
    }

    /// The semi-major axis in meters, `origin * C / (2 C - W)`, negative on a
    /// hyperbola; none on a parabola and where it is too long to be held.
    pub open spec fn spec_sma(&self) -> Option<int> {
        let axis = ratio(
            self.spec_origin_radius() * self.spec_circular_squared(),
            self.spec_binding(),
        );
        if self.spec_binding() != 0 && fits(axis) {
            Some(axis)
        } else {
            None
        }
    }

    /// Whether the orbit is a parabola.
    pub fn parabolic(&self) -> (flat: bool)
        requires
            self.wf(),
        ensures
            flat == self.spec_parabolic(),
    {
        let circular: i128 = self.circular_squared();
        let launch: i128 = self.launch_squared();
        2 * circular - launch == 0
    }

    /// The semi-major axis of the transfer orbit, negative on a hyperbola; none on a
    /// parabola and where the axis is too long to be held.
    pub fn sma(&self) -> (axis: Option<Distance>)
        requires
            self.wf(),
        ensures
            axis.is_some() == self.spec_sma().is_some(),
            axis.is_some() ==> axis.unwrap() == Distance::spec_from_meters(
                self.spec_sma().unwrap(),
            ),
            axis.is_some() ==> axis.unwrap().m == self.spec_sma().unwrap(),
    {
        let circular: i128 = self.circular_squared();
        let launch: i128 = self.launch_squared();
        match checked_mul_div(self.origin.sma().m, circular, 2 * circular - launch) {
            Some(meters) => Some(Distance::from_meters(meters)),
            None => None,
        }
    }

    /// How far the launch energy carries, measured at `radius`: `W * origin / radius`.
    pub open spec fn spec_reach(&self, radius: int) -> int {
        self.spec_launch_squared() * self.spec_origin_radius() / radius
    }

    /// The cosine of the true anomaly at `radius`, rounded to five fractional digits and
    /// held between minus one and one. With `e` the eccentricity and `a` the semi-major
    /// axis it is `(a (1 - e^2) / radius - 1) / e`, which is
    /// `(W * origin / radius - C) / (W - C)`.
    pub open spec fn spec_true_anomaly_cos(&self, radius: int) -> int {
        COSINE_STEP * clamp(
            nearest_ratio(
                (self.spec_reach(radius) - self.spec_circular_squared()) * 100_000,
                self.spec_launch_squared() - self.spec_circular_squared(),
            ),
            -100_000,
            100_000,
        )
    }

    /// The reach at any radius in range can be held.
    pub proof fn lemma_reach_bounds(&self, radius: int)
        requires
            self.wf(),
            RADIUS_MIN <= radius <= RADIUS_MAX,
        ensures
            0 <= self.spec_reach(radius) <= 142_800_000_000_000_000_000_000_000_000_000_000_000,
            self.spec_reach(self.spec_origin_radius()) == self.spec_launch_squared(),
    {
        self.spec_origin().lemma_speed_bounds();
        self.lemma_launch_bounds();
        let cc = self.spec_circular_squared();
        let ww = self.spec_launch_squared();
        let r1 = self.spec_origin_radius();
        let mu = self.spec_origin().spec_parent().spec_parameter();
        assert(cc * r1 <= mu * 1_000_000_000_000_000_000_000_000_000_000) by (nonlinear_arith)
            requires
                cc == mu * 1_000_000_000_000_000_000_000_000_000_000 / r1,
                0 < r1,
                0 <= mu,
        ;
        assert(0 <= ww * r1 <= 102 * (cc * r1)) by (nonlinear_arith)
            requires
                0 <= ww <= 102 * cc,
                0 < r1,
        ;
        assert(mu * 1_000_000_000_000_000_000_000_000_000_000 <= 14_000_000_000_000_000_000_000_000_000 * 1_000_000_000_000_000_000_000_000_000_000) by (nonlinear_arith)
            requires
                mu <= 14_000_000_000_000_000_000_000_000_000,
        ;
        assert(0 <= ww * r1 / radius <= 142_800_000_000_000_000_000_000_000_000_000_000_000) by (nonlinear_arith)
            requires
                0 <= ww * r1 <= 102 * (14_000_000_000_000_000_000_000_000_000 * 1_000_000_000_000_000_000_000_000_000_000),
                10_000_000_000_000_000_000_000 <= radius,
        ;
        assert(ww * r1 / r1 == ww) by (nonlinear_arith)
            requires
                0 < r1,
        ;
    }

    /// The cosine of the true anomaly at the radius `sma`; none on a circle, which has
    /// no apse to count the anomaly from.
    pub fn true_anomaly_cos(&self, sma: Distance) -> (cosine: Option<i128>)
        requires
            self.wf(),
            RADIUS_MIN <= sma.m <= RADIUS_MAX,
        ensures
            cosine.is_none() <==> self.spec_launch_squared() == self.spec_circular_squared(),
            cosine.is_some() ==> cosine.unwrap() == self.spec_true_anomaly_cos(sma.m as int),
            cosine.is_some() ==> -SCALE <= cosine.unwrap() <= SCALE,
    {
        let circular: i128 = self.circular_squared();
        let launch: i128 = self.launch_squared();
        if launch == circular {
            return None;
        }
        proof {
            self.lemma_reach_bounds(sma.m as int);
        }
        let reach: u128 = mul_div_floor(
            launch as u128,
            self.origin.sma().m as u128,
            sma.m as u128,
        );
        let excess: i128 = reach as i128 - circular;
        let energy: i128 = launch - circular;
        let excess_size: i128 = if excess >= 0 {
            excess
        } else {
            -excess
        };
        let energy_size: i128 = if energy >= 0 {
            energy
        } else {
            -energy
        };
        proof {
            let n = excess * 100_000;
            assert(magnitude(n) == 100_000 * magnitude(excess as int));
            crate::fixed::lemma_nearest_ratio_threshold(n, energy as int, 100_000);
            if excess_size < energy_size {
                crate::fixed::lemma_ratio_magnitude(n, energy as int, 100_000);
            }
        }
        if excess_size >= energy_size {
            if (excess >= 0) == (energy > 0) {
                Some(SCALE)
            } else {
                Some(-SCALE)
            }
        } else {
            let rounded: i128 = mul_div_nearest(excess, 100_000, energy);
            Some(COSINE_STEP * rounded)
        }
    }

    /// The cosine of the true anomaly at departure. The transfer leaves along the
    /// direction of motion, so at an apse: the cosine is one.
    pub fn origin_true_anomaly_departure_cos(&self) -> (cosine: i128)
        requires
            self.wf(),
        ensures
            cosine == SCALE,
            self.spec_launch_squared() != self.spec_circular_squared() ==> cosine
                == self.spec_true_anomaly_cos(self.spec_origin_radius()),
    {
        proof {
            self.lemma_reach_bounds(self.spec_origin_radius());
            let d = self.spec_launch_squared() - self.spec_circular_squared();
            if d != 0 {
                crate::fixed::lemma_nearest_ratio_threshold(d * 100_000, d, 100_000);
                crate::fixed::lemma_nearest_ratio_threshold(d * 100_000, d, 100_001);
                assert(magnitude(d * 100_000) == 100_000 * magnitude(d));
            }
        }
        SCALE
    }

    /// The cosine of the true anomaly on arrival. A transfer along the circle of the
    /// origin arrives half a turn after it left: the cosine is minus one.
    pub open spec fn spec_target_true_anomaly_arrival_cos(&self) -> int {
        if self.spec_launch_squared() == self.spec_circular_squared() {
            -SCALE as int
        } else {
            self.spec_true_anomaly_cos(self.spec_target_radius())
        }
    }

    /// The cosine of the true anomaly at the radius of the target.
    pub fn target_true_anomaly_arrival_cos(&self) -> (cosine: i128)
        requires
            self.wf(),
        ensures
            cosine == self.spec_target_true_anomaly_arrival_cos(),
            -SCALE <= cosine <= SCALE,
    {
        match self.true_anomaly_cos(self.target.sma()) {
            Some(cosine) => cosine,
            None => -SCALE,
        }
    }

    /// The orbit is an ellipse: the eccentricity is less than one in size. Every other
    /// orbit is taken as a hyperbola.
    pub open spec fn spec_elliptic(&self) -> bool {
        magnitude(self.spec_eccentricity()) < SCALE
    }

    /// `1 + e cos(nu)`: what the radius at the true anomaly `nu` is inversely
    /// proportional to.
    pub open spec fn spec_anomaly_divisor(&self, true_anomaly_cos: int) -> int {
        SCALE + ratio(self.spec_eccentricity() * true_anomaly_cos, SCALE as int)
    }

    /// `(e + cos(nu)) / (1 + e cos(nu))`: the cosine of the eccentric anomaly on an
    /// ellipse, held between minus one and one; the hyperbolic cosine of the hyperbolic
    /// anomaly on a hyperbola, held at one or above.
    pub open spec fn spec_eccentric_anomaly_cos(&self, true_anomaly_cos: int) -> int {
        let value = nearest_ratio(
            (self.spec_eccentricity() + true_anomaly_cos) * SCALE,
            self.spec_anomaly_divisor(true_anomaly_cos),
        );
        if self.spec_elliptic() {
            clamp(value, -SCALE as int, SCALE as int)
        } else if value < SCALE {
            SCALE as int
        } else {
            value
        }
    }

    /// The mean anomaly from the eccentric anomaly `E` and its sine, `E - e sin(E)`; on a
    /// hyperbola from the hyperbolic anomaly `H` and its hyperbolic sine, `e sinh(H) - H`.
    pub open spec fn spec_mean_anomaly(&self, anomaly: int, sine: int) -> int {
        let swing = ratio(self.spec_eccentricity() * sine, SCALE as int);
        if self.spec_elliptic() {
            anomaly - swing
        } else {
            swing - anomaly
        }
    }

    /// Whether the transfer orbit is an ellipse.
    pub fn elliptic(&self) -> (closed: bool)
        requires
            self.wf(),
        ensures
            closed == self.spec_elliptic(),
    {
        let e: i128 = self.eccentricity();
        -SCALE < e && e < SCALE
    }

    /// The cosine of the eccentric anomaly, or the hyperbolic cosine of the hyperbolic
    /// anomaly, where the true anomaly has the cosine `true_anomaly_cos`; none on a
    /// hyperbola for a direction that it never takes.
    pub fn eccentric_anomaly_cos(&self, true_anomaly_cos: i128) -> (cosine: Option<i128>)
        requires
            self.wf(),
            -SCALE <= true_anomaly_cos <= SCALE,
        ensures
            cosine.is_none() <==> !self.spec_elliptic() && self.spec_anomaly_divisor(
                true_anomaly_cos as int,
            ) <= 0,
            cosine.is_some() ==> cosine.unwrap() == self.spec_eccentric_anomaly_cos(
                true_anomaly_cos as int,
            ),
    {
        let e: i128 = self.eccentricity();
        proof {
            let ec = e * true_anomaly_cos;
            assert(magnitude(ec) <= magnitude(e as int) * SCALE) by (nonlinear_arith)
                requires
                    ec == e * true_anomaly_cos,
                    -SCALE <= true_anomaly_cos <= SCALE,
                    SCALE == 1_000_000_000_000_000_000,
            ;
            assert(magnitude(e as int) * SCALE == magnitude(e as int) * magnitude(SCALE as int));
            crate::fixed::lemma_ratio_magnitude(ec, SCALE as int, magnitude(e as int));
        }
        let divisor: i128 = SCALE + mul_div(e, true_anomaly_cos, SCALE);
        let closed: bool = -SCALE < e && e < SCALE;
        if divisor <= 0 {
            return None;
        }
        let dividend: i128 = e + true_anomaly_cos;
        proof {
            let n = dividend * SCALE;
            assert(magnitude(n) <= 102_000_000_000_000_000_000_000_000_000_000_000_000) by (nonlinear_arith)
                requires
                    n == dividend * SCALE,
                    -102 * SCALE <= dividend <= 102 * SCALE,
                    SCALE == 1_000_000_000_000_000_000,
            ;
            assert(102_000_000_000_000_000_000_000_000_000_000_000_000 * magnitude(divisor as int) >= magnitude(n)) by (nonlinear_arith)
                requires
                    magnitude(n) <= 102_000_000_000_000_000_000_000_000_000_000_000_000,
                    magnitude(divisor as int) >= 1,
            ;
            crate::fixed::lemma_ratio_magnitude(n, divisor as int, 102_000_000_000_000_000_000_000_000_000_000_000_000);
        }
        let value: i128 = mul_div_nearest(dividend, SCALE, divisor);
        if closed {
            if value < -SCALE {
                Some(-SCALE)
            } else if value > SCALE {
                Some(SCALE)
            } else {
                Some(value)
            }
        } else if value < SCALE {
            Some(SCALE)
        } else {
            Some(value)
        }
    }

    /// The mean anomaly, from the eccentric anomaly in radians and its sine; on a
    /// hyperbola from the hyperbolic anomaly and its hyperbolic sine.
    pub fn mean_anomaly(&self, anomaly: i128, sine: i128) -> (mean: i128)
        requires
            self.wf(),
            -ANOMALY_MAX <= anomaly <= ANOMALY_MAX,
            -ANOMALY_MAX <= sine <= ANOMALY_MAX,
        ensures
            mean == self.spec_mean_anomaly(anomaly as int, sine as int),
    {
        let e: i128 = self.eccentricity();
        proof {
            let es = e * sine;
            assert(magnitude(es) <= 101 * (SCALE * magnitude(sine as int))) by (nonlinear_arith)
                requires
                    es == e * sine,
                    -SCALE <= e <= 101 * SCALE,
                    SCALE == 1_000_000_000_000_000_000,
            ;
            assert((101 * magnitude(sine as int)) * magnitude(SCALE as int) == 101 * (SCALE
                * magnitude(sine as int))) by (nonlinear_arith)
                requires
                    magnitude(SCALE as int) == SCALE,
            ;
            crate::fixed::lemma_ratio_magnitude(es, SCALE as int, 101 * magnitude(sine as int));
        }
        let swing: i128 = mul_div(e, sine, SCALE);
        if -SCALE < e && e < SCALE {
            anomaly - swing
        } else {
            swing - anomaly
        }
    }

    /// The semi-major axis over the origin radius, without its sign, `C / |2 C - W|`;
    /// none on a parabola and where it is too large to be held.
    pub open spec fn spec_axis_ratio(&self) -> Option<int> {
        let share = ratio(self.spec_circular_squared() * SCALE, magnitude(self.spec_binding()));
        if self.spec_binding() != 0 && fits(share) {
            Some(share)
        } else {
            None
        }
    }

    /// The time, in seconds, between the mean anomalies `departure` and `arrival`: their
    /// difference times `sqrt(|a|^3 / mu)`, with `a` the semi-major axis. The factor is
    /// taken as `origin / c` times the axis ratio times its square root. None on a
    /// parabola and where a step is too large to be held.
    pub open spec fn spec_time_of_flight(&self, departure: int, arrival: int) -> Option<int> {
        if self.spec_axis_ratio().is_none() {
            None
        } else {
            let share = self.spec_axis_ratio().unwrap();
            let root = sqrt_floor(share * SCALE);
            let base = ratio(
                (arrival - departure) * self.spec_origin_radius(),
                self.spec_circular(),
            );
            let scaled = ratio(base * share, SCALE as int);
            let time = ratio(scaled * root, SCALE as int);
            if fits(scaled) && fits(time) {
                Some(time)
            } else {
                None
            }
        }
    }

    /// The semi-major axis over the origin radius, without its sign.
    fn axis_ratio(&self) -> (share: Option<i128>)
        requires
            self.wf(),
        ensures
            share.is_some() == self.spec_axis_ratio().is_some(),
            share.is_some() ==> share.unwrap() == self.spec_axis_ratio().unwrap(),
            share.is_some() ==> share.unwrap() >= 0,
    {
        proof {
            self.spec_origin().lemma_speed_bounds();
            self.lemma_launch_bounds();
        }
        let circular: i128 = self.circular_squared();
        let launch: i128 = self.launch_squared();
        let binding: i128 = 2 * circular - launch;
        let binding_size: i128 = if binding >= 0 {
            binding
        } else {
            -binding
        };
        proof {
            assert(0 <= circular * SCALE) by (nonlinear_arith)
                requires
                    0 <= circular,
                    SCALE == 1_000_000_000_000_000_000,
            ;
            if binding_size > 0 {
                crate::fixed::lemma_ratio_sign(circular * SCALE, binding_size as int);
            }
        }
        checked_mul_div(circular, SCALE, binding_size)
    }

    /// The mean anomaly gained, times the origin radius over the circular speed.
    fn flight_base(&self, mean_departure: i128, mean_arrival: i128) -> (base: i128)
        requires
            self.wf(),
            -MEAN_MAX <= mean_departure <= MEAN_MAX,
            -MEAN_MAX <= mean_arrival <= MEAN_MAX,
        ensures
            base == ratio(
                (mean_arrival - mean_departure) * self.spec_origin_radius(),
                self.spec_circular(),
            ),
    {
        proof {
            self.spec_origin().lemma_speed_bounds();
        }
        let speed: i128 = self.origin.orbital_velocity().mps;
        let swept: i128 = mean_arrival - mean_departure;
        let radius: i128 = self.origin.sma().m;
        proof {
            let n = swept * radius;
            assert(magnitude(n) <= 200_000_000_000_000_000_000_000 * 10_000_000_000_000_000_000_000_000_000_000) by (nonlinear_arith)
                requires
                    n == swept * radius,
                    -200_000_000_000_000_000_000_000 <= swept <= 200_000_000_000_000_000_000_000,
                    0 < radius <= 10_000_000_000_000_000_000_000_000_000_000,
            ;
            assert(magnitude(n) <= 20_000_000_000_000_000_000_000_000_000_000_000_000 * magnitude(speed as int)) by (nonlinear_arith)
                requires
                    magnitude(n) <= 200_000_000_000_000_000_000_000 * 10_000_000_000_000_000_000_000_000_000_000,
                    magnitude(speed as int) >= 100_000_000_000_000_000,
            ;
            crate::fixed::lemma_ratio_magnitude(n, speed as int, 20_000_000_000_000_000_000_000_000_000_000_000_000);
        }
        mul_div(swept, radius, speed)
    }

    /// The time of flight between two mean anomalies, each at most `MEAN_MAX` in size;
    /// none on a parabola and where the time is too long to be held.
    pub fn time_of_flight(&self, mean_departure: i128, mean_arrival: i128) -> (time: Option<
        Duration,
    >)
        requires
            self.wf(),
            -MEAN_MAX <= mean_departure <= MEAN_MAX,
            -MEAN_MAX <= mean_arrival <= MEAN_MAX,
        ensures
            time.is_some() == self.spec_time_of_flight(
                mean_departure as int,
                mean_arrival as int,
            ).is_some(),
            time.is_some() ==> time.unwrap() == Duration::spec_from_seconds(
                self.spec_time_of_flight(mean_departure as int, mean_arrival as int).unwrap(),
            ),
            time.is_some() ==> time.unwrap().s == self.spec_time_of_flight(
                mean_departure as int,
                mean_arrival as int,
            ).unwrap(),
    {
        let share: i128 = match self.axis_ratio() {
            Some(share) => share,
            None => {
                return None;
            },
        };
        let root: u128 = isqrt_scaled(share as u128);
        proof {
            if root > 14_000_000_000_000_000_000_000_000_000 {
                assert(root * root > 14_000_000_000_000_000_000_000_000_000
                    * 14_000_000_000_000_000_000_000_000_000) by (nonlinear_arith)
                    requires
                        root > 14_000_000_000_000_000_000_000_000_000,
                ;
                assert(share * SCALE <= 170_141_183_460_469_231_731_687_303_715_884_105_727
                    * 1_000_000_000_000_000_000) by (nonlinear_arith)
                    requires
                        0 <= share <= 170_141_183_460_469_231_731_687_303_715_884_105_727,
                        SCALE == 1_000_000_000_000_000_000,
                ;
            }
        }
        let base: i128 = self.flight_base(mean_departure, mean_arrival);
        let scaled: i128 = match checked_mul_div(base, share, SCALE) {
            Some(scaled) => scaled,
            None => {
                return None;
            },
        };
        match checked_mul_div(scaled, root as i128, SCALE) {
            Some(seconds) => Some(Duration::from_seconds(seconds)),
            None => None,
        }
    }

    /// The angle a planet of the given period sweeps in `seconds`.
    pub open spec fn spec_swept(period: int, seconds: int) -> int {
        ratio(TAU * seconds, period)
    }

    /// The true anomaly of the target at departure: its true anomaly on arrival less
    /// what it sweeps during the flight, brought into `(-PI, PI]`.
    pub open spec fn spec_target_true_anomaly_departure(
        &self,
        arrival_anomaly: int,
        seconds: int,
    ) -> int {
        spec_normalize(
            arrival_anomaly - Self::spec_swept(self.spec_target().spec_period(), seconds),
        )
    }

    /// The true anomaly of the origin on arrival: its true anomaly at departure plus
    /// what it sweeps during the flight, brought into `(-PI, PI]`.
    pub open spec fn spec_origin_true_anomaly_arrival(
        &self,
        departure_anomaly: int,
        seconds: int,
    ) -> int {
        spec_normalize(
            departure_anomaly + Self::spec_swept(self.spec_origin().spec_period(), seconds),
        )
    }

    /// The angle a planet sweeps during the flight.
    fn swept(planet: &Planet, time_of_flight: Duration) -> (angle: i128)
        requires
            planet.wf(),
            -TIME_MAX <= time_of_flight.s <= TIME_MAX,
        ensures
            angle == Self::spec_swept(planet.spec_period(), time_of_flight.s as int),
            magnitude(angle as int) <= 130_000_000_000_000_000_000_000_000_000_000_000_000,
    {
        let period: i128 = planet.period();
        proof {
            let n = TAU * time_of_flight.s;
            assert(magnitude(n) <= TAU * TIME_MAX) by (nonlinear_arith)
                requires
                    n == TAU * time_of_flight.s,
                    -TIME_MAX <= time_of_flight.s <= TIME_MAX,
                    TAU == 6_283_185_307_179_586_476,
            ;
            assert(magnitude(n) <= 130_000_000_000_000_000_000_000_000_000_000_000_000 * magnitude(period as int)) by (nonlinear_arith)
                requires
                    magnitude(n) <= TAU * TIME_MAX,
                    TAU == 6_283_185_307_179_586_476,
                    TIME_MAX == 1_000_000_000_000_000_000_000_000_000_000_000,
                    magnitude(period as int) >= 50_000_000_000_000,
            ;
            crate::fixed::lemma_ratio_magnitude(n, period as int, 130_000_000_000_000_000_000_000_000_000_000_000_000);
        }
        mul_div(TAU, time_of_flight.s, period)
    }

    /// Where the target stands at departure, as its true anomaly in `(-PI, PI]`.
    pub fn target_true_anomaly_departure(
        &self,
        arrival_anomaly: i128,
        time_of_flight: Duration,
    ) -> (angle: i128)
        requires
            self.wf(),
            -MEAN_MAX <= arrival_anomaly <= MEAN_MAX,
            -TIME_MAX <= time_of_flight.s <= TIME_MAX,
        ensures
            angle == self.spec_target_true_anomaly_departure(
                arrival_anomaly as int,
                time_of_flight.s as int,
            ),
            -PI < angle <= PI,
    {
        let swept: i128 = Self::swept(&self.target, time_of_flight);
        normalize(arrival_anomaly - swept)
    }

    /// Where the origin stands on arrival, as its true anomaly in `(-PI, PI]`.
    pub fn origin_true_anomaly_arrival(
        &self,
        departure_anomaly: i128,
        time_of_flight: Duration,
    ) -> (angle: i128)
        requires
            self.wf(),
            -MEAN_MAX <= departure_anomaly <= MEAN_MAX,
            -TIME_MAX <= time_of_flight.s <= TIME_MAX,
        ensures
            angle == self.spec_origin_true_anomaly_arrival(
                departure_anomaly as int,
                time_of_flight.s as int,
            ),
            -PI < angle <= PI,
    {
        let swept: i128 = Self::swept(&self.origin, time_of_flight);
        normalize(departure_anomaly + swept)
    }

    /// The phase angle: by how much the target must lead the origin at departure for
    /// both to meet on arrival. It is the true anomaly of the target at departure.
    pub fn phase(&self, arrival_anomaly: i128, time_of_flight: Duration) -> (angle: i128)
        requires
            self.wf(),
            -MEAN_MAX <= arrival_anomaly <= MEAN_MAX,
            -TIME_MAX <= time_of_flight.s <= TIME_MAX,
        ensures
            angle == self.spec_target_true_anomaly_departure(
                arrival_anomaly as int,
                time_of_flight.s as int,
            ),
            -PI < angle <= PI,
    {
        self.target_true_anomaly_departure(arrival_anomaly, time_of_flight)
    }
}

} // verus!
