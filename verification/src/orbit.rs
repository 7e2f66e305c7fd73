//! A parent body and the circular orbits around it.

use crate::angle::TAU;
use crate::fixed::{is_sqrt_floor, isqrt_scaled, mul_div, mul_div_floor, sqrt_floor, SCALE};
use crate::quantities::{Distance, Mass, Velocity};
use vstd::prelude::*;

verus! {

/// Smallest orbital radius the library computes with: ten kilometers.
pub const RADIUS_MIN: i128 = 10_000_000_000_000_000_000_000;

/// Largest orbital radius the library computes with: ten to the power 13 meters.
pub const RADIUS_MAX: i128 = 10_000_000_000_000_000_000_000_000_000_000;

/// Weakest gravitational parameter the library computes with: ten to the power 11
/// cubic meters per square second.
pub const PARAMETER_MIN: u128 = 100_000_000_000_000_000;

/// Strongest gravitational parameter the library computes with.
pub const PARAMETER_MAX: u128 = 14_000_000_000_000_000_000_000_000_000;

/// What the quotient of a gravitational parameter, of six fractional digits, by a
/// radius is scaled by to give a square of speeds on the grid.
pub const ENERGY_FACTOR: u128 = 1_000_000_000_000_000_000_000_000_000_000;

/// The body at the focus of every orbit.
#[derive(Clone, Copy, Debug)]
pub struct Parent {
    mass: Mass,
}

impl Parent {
    pub closed spec fn spec_mass(&self) -> Mass {
        self.mass
    }

    /// The strength of the body's gravitational field.
    pub open spec fn spec_parameter(&self) -> int {
        self.spec_mass().gravitational_parameter as int
    }

    pub fn new(mass: Mass) -> (parent: Parent)
        ensures
            parent.spec_mass() == mass,
    {
        Parent { mass }
    }

    pub fn mass(&self) -> (mass: Mass)
        ensures
            mass == self.spec_mass(),
    {
        self.mass
    }
}

/// A body on a circular orbit around its parent.
#[derive(Clone, Copy, Debug)]
pub struct Planet {
    sma: Distance,
    parent: Parent,
}

impl Planet {
    pub closed spec fn spec_sma(&self) -> Distance {
        self.sma
    }

    pub closed spec fn spec_parent(&self) -> Parent {
        self.parent
    }

    /// The radius and the parent are in the range the library computes with.
    pub open spec fn wf(&self) -> bool {
        &&& RADIUS_MIN <= self.spec_sma().m <= RADIUS_MAX
        &&& PARAMETER_MIN <= self.spec_parent().spec_parameter() <= PARAMETER_MAX
    }

    /// The square of the circular speed: the gravitational parameter over the radius.
    pub open spec fn spec_speed_squared(&self) -> int {
        self.spec_parent().spec_parameter() * ENERGY_FACTOR / (self.spec_sma().m as int)
    }

    /// The circular speed, the square root of `spec_speed_squared`.
    pub open spec fn spec_orbital_velocity(&self) -> int {
        sqrt_floor(self.spec_speed_squared() * SCALE)
    }

    /// The time of one revolution: the circumference over the circular speed.
    pub open spec fn spec_period(&self) -> int {
        TAU * self.spec_sma().m / self.spec_orbital_velocity()
    }

    pub fn new(sma: Distance, parent: Parent) -> (planet: Planet)
        ensures
            planet.spec_sma() == sma,
            planet.spec_parent() == parent,
    {
        Planet { sma, parent }
    }

    /// Whether the radius and the parent are in the range the library computes with.
    pub fn is_wf(&self) -> (ok: bool)
        ensures
            ok == self.wf(),
    {
        let parameter: u128 = self.parent.mass().gravitational_parameter;
        RADIUS_MIN <= self.sma.m && self.sma.m <= RADIUS_MAX && PARAMETER_MIN <= parameter
            && parameter <= PARAMETER_MAX
    }

    pub fn sma(&self) -> (sma: Distance)
        ensures
            sma == self.spec_sma(),
    {
        self.sma
    }

    pub fn parent(&self) -> (parent: Parent)
        ensures
            parent == self.spec_parent(),
    {
        self.parent
    }

    /// The circular speed is positive and far from the limits of the integers.
    pub proof fn lemma_speed_bounds(&self)
        requires
            self.wf(),
        ensures
            10_000_000_000_000_000 <= self.spec_speed_squared() <= 1_400_000_000_000_000_000_000_000_000_000_000_000,
            is_sqrt_floor(self.spec_speed_squared() * SCALE, self.spec_orbital_velocity()),
            100_000_000_000_000_000 <= self.spec_orbital_velocity() <= 1_200_000_000_000_000_000_000_000_000,
    {
        let mu = self.spec_parent().spec_parameter();
        let r = self.spec_sma().m as int;
        let n = self.spec_speed_squared();
        assert(10_000_000_000_000_000 <= n <= 1_400_000_000_000_000_000_000_000_000_000_000_000) by (nonlinear_arith)
            requires
                n == mu * 1_000_000_000_000_000_000_000_000_000_000 / r,
                10_000_000_000_000_000_000_000 <= r <= 10_000_000_000_000_000_000_000_000_000_000,
                100_000_000_000_000_000 <= mu <= 14_000_000_000_000_000_000_000_000_000,
        ;
        let v = self.spec_orbital_velocity();
        assert(100_000_000_000_000_000 * 100_000_000_000_000_000 <= n * SCALE <= 1_400_000_000_000_000_000_000_000_000 * 1_000_000_000_000_000_000_000_000_000) by (nonlinear_arith)
            requires
                10_000_000_000_000_000 <= n <= 1_400_000_000_000_000_000_000_000_000_000_000_000,
                SCALE == 1_000_000_000_000_000_000,
        ;
        crate::fixed::lemma_sqrt_floor_exists(n * SCALE);
        if v < 100_000_000_000_000_000 {
            assert((v + 1) * (v + 1) <= 100_000_000_000_000_000 * 100_000_000_000_000_000) by (nonlinear_arith)
                requires
                    0 <= v < 100_000_000_000_000_000,
            ;
        }
        if v > 1_200_000_000_000_000_000_000_000_000 {
            assert(v * v > 1_400_000_000_000_000_000_000_000_000 * 1_000_000_000_000_000_000_000_000_000) by (nonlinear_arith)
                requires
                    v > 1_200_000_000_000_000_000_000_000_000,
            ;
        }
    }

    /// The speed on the orbit, `sqrt(mu / sma)`.
    pub fn orbital_velocity(&self) -> (v: Velocity)
        requires
            self.wf(),
        ensures
            v == Velocity::spec_from_meters_per_second(self.spec_orbital_velocity()),
            v.mps == self.spec_orbital_velocity(),
            v.wf(),
    {
        proof {
            self.lemma_speed_bounds();
        }
        let squared: u128 = mul_div_floor(
            self.parent.mass().gravitational_parameter,
            ENERGY_FACTOR,
            self.sma.m as u128,
        );
        let speed: u128 = isqrt_scaled(squared);
        Velocity::from_meters_per_second(speed as i128)
    }

    /// The time of one revolution in seconds, `2 pi sqrt(sma^3 / mu)`, taken as the
    /// circumference over the circular speed.
    pub fn period(&self) -> (seconds: i128)
        requires
            self.wf(),
        ensures
            seconds == self.spec_period(),
            seconds >= 50_000_000_000_000,
    {
        proof {
            self.lemma_speed_bounds();
        }
        let speed: i128 = self.orbital_velocity().mps;
        proof {
            let r = self.spec_sma().m as int;
            let v = speed as int;
            assert(60_000_000_000_000_000_000_000_000_000_000_000_000_000 <= TAU * r <= TAU * 10_000_000_000_000_000_000_000_000_000_000) by (nonlinear_arith)
                requires
                    TAU == 6_283_185_307_179_586_476,
                    10_000_000_000_000_000_000_000 <= r <= 10_000_000_000_000_000_000_000_000_000_000,
            ;
            assert(50_000_000_000_000 <= TAU * r / v <= TAU * r / 100_000_000_000_000_000) by (nonlinear_arith)
                requires
                    100_000_000_000_000_000 <= v <= 1_200_000_000_000_000_000_000_000_000,
                    60_000_000_000_000_000_000_000_000_000_000_000_000_000 <= TAU * r,
            ;
            assert(TAU * r / 100_000_000_000_000_000 <= 700_000_000_000_000_000_000_000_000_000_000) by (nonlinear_arith)
                requires
                    TAU * r <= TAU * 10_000_000_000_000_000_000_000_000_000_000,
                    TAU == 6_283_185_307_179_586_476,
            ;
        }
        mul_div(TAU, self.sma.m, speed)
    }
}

} // verus!
