//! Physical quantities, each held in several units at once.
//!
//! A quantity keeps its magnitude in a canonical unit and, beside it, the same
//! magnitude in every other unit it supports, each rounded to the nearest step of the
//! grid. The constructors fill all fields from one of them, and
//! the `*_updated` methods do the same after a single field was edited.

use crate::fixed::{
    fits, grid_step, lemma_nearest_of_multiple, lemma_unit_kept, mul_div_floor, mul_div_nearest,
    mul_div_round, nearest, nearest_div, nearest_ratio, place_step, ratio, round_half_away,
    round_to, round_to_place, LIMIT, SCALE,
};
use crate::text::{spec_to_text, to_text};
use vstd::prelude::*;
use vstd::string::StringExecFns;

verus! {

/// Meters in one kilometer.
pub const METERS_KILOMETER: i128 = 1_000;

/// Meters in one astronomical unit.
pub const METERS_AU: i128 = 149_598_023_000;

/// Millimeters in one meter, and meters in one kilometer, for speeds.
pub const SPEED_STEP: i128 = 1_000;

/// The units a length is shown in.
#[derive(Clone, Copy, Debug, PartialEq, Eq, Structural)]
pub enum DistanceUnit {
    Meters,
    Kilometers,
    AstronomicalUnits,
}

/// Kilometers above which a length is shown in astronomical units.
pub const SHOWN_IN_AU_ABOVE: i128 = 7_500_000_000_000_000_000_000_000;

/// Meters above which a length is shown in kilometers.
pub const SHOWN_IN_KM_ABOVE: i128 = 100_000_000_000_000_000_000_000;

/// A length, which may be negative: the semi-major axis of a hyperbola is.
#[derive(Clone, Copy, Debug, PartialEq, Eq, Structural)]
pub struct Distance {
    /// Meters, the canonical unit.
    pub m: i128,
    /// Kilometers.
    pub km: i128,
    /// Astronomical units.
    pub au: i128,
}

impl Distance {
    /// The distance of `sma` meters, in all its units.
    pub open spec fn spec_from_meters(sma: int) -> Distance {
        Distance {
            m: sma as i128,
            km: nearest_ratio(sma, METERS_KILOMETER as int) as i128,
            au: nearest_ratio(sma, METERS_AU as int) as i128,
        }
    }

    /// All fields stand for the same length.
    pub open spec fn wf(&self) -> bool {
        *self == Self::spec_from_meters(self.m as int)
    }

    pub fn from_meters(sma: i128) -> (d: Distance)
        ensures
            d == Self::spec_from_meters(sma as int),
            d.wf(),
    {
        Distance { m: sma, km: nearest(sma, METERS_KILOMETER), au: nearest(sma, METERS_AU) }
    }

    pub fn from_kilometers(sma: i128) -> (d: Distance)
        requires
            fits(sma * METERS_KILOMETER),
        ensures
            d == Self::spec_from_meters(sma * METERS_KILOMETER),
            d.km == sma,
            d.wf(),
    {
        proof {
            lemma_nearest_of_multiple(sma as int, METERS_KILOMETER as int);
        }
        Self::from_meters(sma * METERS_KILOMETER)
    }

    pub fn from_astronomical_unit(sma: i128) -> (d: Distance)
        requires
            fits(sma * METERS_AU),
        ensures
            d == Self::spec_from_meters(sma * METERS_AU),
            d.au == sma,
            d.wf(),
    {
        proof {
            lemma_nearest_of_multiple(sma as int, METERS_AU as int);
        }
        Self::from_meters(sma * METERS_AU)
    }

    /// Rebuilds every field from the meters.
    pub fn m_updated(&mut self)
        ensures
            *final(self) == Self::spec_from_meters(old(self).m as int),
    {
        *self = Self::from_meters(self.m);
    }

    /// Rebuilds every field from the kilometers.
    pub fn km_updated(&mut self)
        requires
            fits(old(self).km * METERS_KILOMETER),
        ensures
            *final(self) == Self::spec_from_meters(old(self).km * METERS_KILOMETER),
            final(self).km == old(self).km,
    {
        *self = Self::from_kilometers(self.km);
    }

    /// Rebuilds every field from the astronomical units.
    pub fn au_updated(&mut self)
        requires
            fits(old(self).au * METERS_AU),
        ensures
            *final(self) == Self::spec_from_meters(old(self).au * METERS_AU),
            final(self).au == old(self).au,
    {
        *self = Self::from_astronomical_unit(self.au);
    }

    /// The unit to show the length in: astronomical units above seven and a half
    /// million kilometers, kilometers above a hundred thousand meters, else meters.
    pub open spec fn spec_display_unit(&self) -> DistanceUnit {
        if self.km > SHOWN_IN_AU_ABOVE {
            DistanceUnit::AstronomicalUnits
        } else if self.m > SHOWN_IN_KM_ABOVE {
            DistanceUnit::Kilometers
        } else {
            DistanceUnit::Meters
        }
    }

    /// The unit to show the length in.
    pub fn display_unit(&self) -> (unit: DistanceUnit)
        ensures
            unit == self.spec_display_unit(),
    {
        if self.km > SHOWN_IN_AU_ABOVE {
            DistanceUnit::AstronomicalUnits
        } else if self.m > SHOWN_IN_KM_ABOVE {
            DistanceUnit::Kilometers
        } else {
            DistanceUnit::Meters
        }
    }

    /// The sum of two lengths.
    pub fn add(self, rhs: Distance) -> (d: Distance)
        requires
            fits(self.m + rhs.m),
        ensures
            d == Self::spec_from_meters(self.m + rhs.m),
    {
        Self::from_meters(self.m + rhs.m)
    }

    /// The difference of two lengths.
    pub fn sub(self, rhs: Distance) -> (d: Distance)
        requires
            fits(self.m - rhs.m),
        ensures
            d == Self::spec_from_meters(self.m - rhs.m),
    {
        Self::from_meters(self.m - rhs.m)
    }

    /// The length times a fixed-point factor, rounded to the nearest step.
    pub fn mul(self, rhs: i128) -> (d: Distance)
        requires
            fits(ratio(self.m * rhs, SCALE as int) + 1),
            fits(ratio(self.m * rhs, SCALE as int) - 1),
        ensures
            d == Self::spec_from_meters(nearest_ratio(self.m * rhs, SCALE as int)),
    {
        Self::from_meters(mul_div_nearest(self.m, rhs, SCALE))
    }

    /// The length divided by a fixed-point number, rounded to the nearest step.
    pub fn div(self, rhs: i128) -> (d: Distance)
        requires
            rhs != 0,
            fits(ratio(self.m * SCALE, rhs as int) + 1),
            fits(ratio(self.m * SCALE, rhs as int) - 1),
        ensures
            d == Self::spec_from_meters(nearest_ratio(self.m * SCALE, rhs as int)),
    {
        Self::from_meters(mul_div_nearest(self.m, SCALE, rhs))
    }
}

/// The units a speed is shown in.
#[derive(Clone, Copy, Debug, PartialEq, Eq, Structural)]
pub enum VelocityUnit {
    MillimetersPerSecond,
    MetersPerSecond,
    KilometersPerSecond,
}

/// Size, in the next smaller unit, from which a speed is shown in the larger one.
pub const SHOWN_IN_LARGER_FROM: i128 = 1_000_000_000_000_000_000_000;

/// A speed along a line, negative when directed backwards.
#[derive(Clone, Copy, Debug, PartialEq, Eq, Structural)]
pub struct Velocity {
    /// Millimeters per second.
    pub mmps: i128,
    /// Meters per second, the canonical unit.
    pub mps: i128,
    /// Kilometers per second.
    pub kps: i128,
}

impl Velocity {
    /// The speed of `velocity` meters per second, in all its units.
    pub open spec fn spec_from_meters_per_second(velocity: int) -> Velocity {
        Velocity {
            mmps: (velocity * SPEED_STEP) as i128,
            mps: velocity as i128,
            kps: nearest_ratio(velocity, SPEED_STEP as int) as i128,
        }
    }

    /// All fields stand for the same speed.
    pub open spec fn wf(&self) -> bool {
        &&& fits(self.mps * SPEED_STEP)
        &&& *self == Self::spec_from_meters_per_second(self.mps as int)
    }

    pub fn from_meters_per_second(velocity: i128) -> (v: Velocity)
        requires
            fits(velocity * SPEED_STEP),
        ensures
            v == Self::spec_from_meters_per_second(velocity as int),
            v.wf(),
    {
        Velocity { mmps: velocity * SPEED_STEP, mps: velocity, kps: nearest(velocity, SPEED_STEP) }
    }

    /// Rounded to the nearest step of the meters per second.
    pub fn from_millimeters_per_second(velocity: i128) -> (v: Velocity)
        requires
            fits(nearest_ratio(velocity as int, SPEED_STEP as int) * SPEED_STEP),
        ensures
            v == Self::spec_from_meters_per_second(
                nearest_ratio(velocity as int, SPEED_STEP as int),
            ),
            v.wf(),
    {
        Self::from_meters_per_second(nearest(velocity, SPEED_STEP))
    }

    pub fn from_kilometers_per_second(velocity: i128) -> (v: Velocity)
        requires
            fits(velocity * SPEED_STEP * SPEED_STEP),
        ensures
            v == Self::spec_from_meters_per_second(velocity * SPEED_STEP),
            v.kps == velocity,
            v.wf(),
    {
        proof {
            lemma_nearest_of_multiple(velocity as int, SPEED_STEP as int);
        }
        Self::from_meters_per_second(velocity * SPEED_STEP)
    }

    /// Rebuilds every field from the millimeters per second.
    pub fn mmps_updated(&mut self)
        requires
            fits(nearest_ratio(old(self).mmps as int, SPEED_STEP as int) * SPEED_STEP),
        ensures
            *final(self) == Self::spec_from_meters_per_second(
                nearest_ratio(old(self).mmps as int, SPEED_STEP as int),
            ),
    {
        *self = Self::from_millimeters_per_second(self.mmps);
    }

    /// Rebuilds every field from the meters per second.
    pub fn mps_updated(&mut self)
        requires
            fits(old(self).mps * SPEED_STEP),
        ensures
            *final(self) == Self::spec_from_meters_per_second(old(self).mps as int),
    {
        *self = Self::from_meters_per_second(self.mps);
    }

    /// Rebuilds every field from the kilometers per second.
    pub fn kps_updated(&mut self)
        requires
            fits(old(self).kps * SPEED_STEP * SPEED_STEP),
        ensures
            *final(self) == Self::spec_from_meters_per_second(old(self).kps * SPEED_STEP),
            final(self).kps == old(self).kps,
    {
        *self = Self::from_kilometers_per_second(self.kps);
    }

    /// The unit to show the speed in: kilometers per second from a thousand meters per
    /// second on, whatever the direction, meters per second from a thousand
    /// millimeters per second on, else millimeters per second.
    pub open spec fn spec_display_unit(&self) -> VelocityUnit {
        if self.mps >= SHOWN_IN_LARGER_FROM || self.mps <= -SHOWN_IN_LARGER_FROM {
            VelocityUnit::KilometersPerSecond
        } else if self.mmps >= SHOWN_IN_LARGER_FROM || self.mmps <= -SHOWN_IN_LARGER_FROM {
            VelocityUnit::MetersPerSecond
        } else {
            VelocityUnit::MillimetersPerSecond
        }
    }

    /// The unit to show the speed in.
    pub fn display_unit(&self) -> (unit: VelocityUnit)
        ensures
            unit == self.spec_display_unit(),
    {
        if self.mps >= SHOWN_IN_LARGER_FROM || self.mps <= -SHOWN_IN_LARGER_FROM {
            VelocityUnit::KilometersPerSecond
        } else if self.mmps >= SHOWN_IN_LARGER_FROM || self.mmps <= -SHOWN_IN_LARGER_FROM {
            VelocityUnit::MetersPerSecond
        } else {
            VelocityUnit::MillimetersPerSecond
        }
    }

    /// The sum of two speeds.
    pub fn add(self, rhs: Velocity) -> (v: Velocity)
        requires
            fits((self.mps + rhs.mps) * SPEED_STEP),
        ensures
            v == Self::spec_from_meters_per_second(self.mps + rhs.mps),
    {
        Self::from_meters_per_second(self.mps + rhs.mps)
    }

    /// The difference of two speeds.
    pub fn sub(self, rhs: Velocity) -> (v: Velocity)
        requires
            fits((self.mps - rhs.mps) * SPEED_STEP),
        ensures
            v == Self::spec_from_meters_per_second(self.mps - rhs.mps),
    {
        Self::from_meters_per_second(self.mps - rhs.mps)
    }

    /// The speed times a fixed-point factor, rounded to the nearest step.
    pub fn mul(self, rhs: i128) -> (v: Velocity)
        requires
            fits(ratio(self.mps * rhs, SCALE as int) + 1),
            fits(ratio(self.mps * rhs, SCALE as int) - 1),
            fits(nearest_ratio(self.mps * rhs, SCALE as int) * SPEED_STEP),
        ensures
            v == Self::spec_from_meters_per_second(nearest_ratio(self.mps * rhs, SCALE as int)),
    {
        Self::from_meters_per_second(mul_div_nearest(self.mps, rhs, SCALE))
    }

    /// The speed divided by a fixed-point number, rounded to the nearest step.
    pub fn div(self, rhs: i128) -> (v: Velocity)
        requires
            rhs != 0,
            fits(ratio(self.mps * SCALE, rhs as int) + 1),
            fits(ratio(self.mps * SCALE, rhs as int) - 1),
            fits(nearest_ratio(self.mps * SCALE, rhs as int) * SPEED_STEP),
        ensures
            v == Self::spec_from_meters_per_second(nearest_ratio(self.mps * SCALE, rhs as int)),
    {
        Self::from_meters_per_second(mul_div_nearest(self.mps, SCALE, rhs))
    }
}

/// Kilograms in one lunar mass.
pub const KILOGRAMS_LUNAR: u128 = 73_476_730_900_000_000_000_000;

/// Kilograms in one earth mass.
pub const KILOGRAMS_EARTH: u128 = 5_972_200_000_000_000_000_000_000;

/// Kilograms in one jovian mass.
pub const KILOGRAMS_JOVIAN: u128 = 1_898_130_000_000_000_000_000_000_000;

/// Kilograms in one solar mass.
pub const KILOGRAMS_SOLAR: u128 = 1_988_470_000_000_000_000_000_000_000_000;

/// The gravitational constant, in cubic meters per kilogram and square second, is
/// `GRAVITATIONAL_CONSTANT` over `GRAVITATIONAL_CONSTANT_DIVISOR`.
pub const GRAVITATIONAL_CONSTANT: u128 = 66_743;

/// See `GRAVITATIONAL_CONSTANT`.
pub const GRAVITATIONAL_CONSTANT_DIVISOR: u128 = 1_000_000_000_000_000;

/// The units a mass is shown in.
#[derive(Clone, Copy, Debug, PartialEq, Eq, Structural)]
pub enum MassUnit {
    Lunar,
    Earth,
    Jovian,
    Solar,
}

/// Jovian masses above which a mass is shown in solar masses.
pub const SHOWN_IN_SOLAR_ABOVE: u128 = 97_000_000_000_000_000_000;

/// Earth masses above which a mass is shown in jovian masses.
pub const SHOWN_IN_JOVIAN_ABOVE: u128 = 35_000_000_000_000_000_000;

/// Lunar masses above which a mass is shown in earth masses.
pub const SHOWN_IN_EARTH_ABOVE: u128 = 8_000_000_000_000_000_000;

/// Steps of the grid of the lunar, earth, jovian and solar masses for each step of the
/// grid of the kilograms: the kilograms have six fractional digits, the others eighteen.
pub const UNIT_FACTOR: u128 = 1_000_000_000_000;

/// The mass of a body, with the strength of its gravitational field.
#[derive(Clone, Copy, Debug, PartialEq, Eq, Structural)]
pub struct Mass {
    /// Kilograms, the canonical unit, with six fractional digits.
    pub kg: u128,
    /// Lunar masses.
    pub lunar: u128,
    /// Earth masses.
    pub earth: u128,
    /// Jovian masses.
    pub jovian: u128,
    /// Solar masses.
    pub solar: u128,
    /// The mass times the gravitational constant, in cubic meters per square second,
    /// with six fractional digits.
    pub gravitational_parameter: u128,
}

impl Mass {
    /// The mass of `mass` kilograms, in all its units.
    pub open spec fn spec_from_kilograms(mass: int) -> Mass {
        Mass {
            kg: mass as u128,
            lunar: nearest_div(mass * UNIT_FACTOR, KILOGRAMS_LUNAR as int) as u128,
            earth: nearest_div(mass * UNIT_FACTOR, KILOGRAMS_EARTH as int) as u128,
            jovian: nearest_div(mass * UNIT_FACTOR, KILOGRAMS_JOVIAN as int) as u128,
            solar: nearest_div(mass * UNIT_FACTOR, KILOGRAMS_SOLAR as int) as u128,
            gravitational_parameter: (mass * GRAVITATIONAL_CONSTANT
                / GRAVITATIONAL_CONSTANT_DIVISOR as int) as u128,
        }
    }

    /// The kilograms in `magnitude` units of `per_unit` kilograms each.
    pub open spec fn spec_kilograms_in(magnitude: int, per_unit: int) -> int {
        nearest_div(magnitude * per_unit, UNIT_FACTOR as int)
    }

    /// All fields stand for the same mass.
    pub open spec fn wf(&self) -> bool {
        *self == Self::spec_from_kilograms(self.kg as int)
    }

    pub fn from_kilograms(mass: u128) -> (m: Mass)
        ensures
            m == Self::spec_from_kilograms(mass as int),
            m.wf(),
    {
        proof {
            assert(mass * GRAVITATIONAL_CONSTANT / GRAVITATIONAL_CONSTANT_DIVISOR as int <= mass)
                by (nonlinear_arith)
                requires
                    0 <= mass,
                    GRAVITATIONAL_CONSTANT == 66_743,
                    GRAVITATIONAL_CONSTANT_DIVISOR == 1_000_000_000_000_000,
            ;
        }
        Mass {
            kg: mass,
            lunar: mul_div_round(mass, UNIT_FACTOR, KILOGRAMS_LUNAR),
            earth: mul_div_round(mass, UNIT_FACTOR, KILOGRAMS_EARTH),
            jovian: mul_div_round(mass, UNIT_FACTOR, KILOGRAMS_JOVIAN),
            solar: mul_div_round(mass, UNIT_FACTOR, KILOGRAMS_SOLAR),
            gravitational_parameter: mul_div_floor(
                mass,
                GRAVITATIONAL_CONSTANT,
                GRAVITATIONAL_CONSTANT_DIVISOR,
            ),
        }
    }

    pub fn from_lunar(mass: u128) -> (m: Mass)
        requires
            mass * KILOGRAMS_LUNAR / (UNIT_FACTOR as int) < u128::MAX,
        ensures
            m == Self::spec_from_kilograms(
                Self::spec_kilograms_in(mass as int, KILOGRAMS_LUNAR as int),
            ),
            m.lunar == mass,
            m.wf(),
    {
        proof {
            lemma_unit_kept(mass as int, KILOGRAMS_LUNAR as int, UNIT_FACTOR as int);
        }
        Self::from_kilograms(mul_div_round(mass, KILOGRAMS_LUNAR, UNIT_FACTOR))
    }

    pub fn from_earth(mass: u128) -> (m: Mass)
        requires
            mass * KILOGRAMS_EARTH / (UNIT_FACTOR as int) < u128::MAX,
        ensures
            m == Self::spec_from_kilograms(
                Self::spec_kilograms_in(mass as int, KILOGRAMS_EARTH as int),
            ),
            m.earth == mass,
            m.wf(),
    {
        proof {
            lemma_unit_kept(mass as int, KILOGRAMS_EARTH as int, UNIT_FACTOR as int);
        }
        Self::from_kilograms(mul_div_round(mass, KILOGRAMS_EARTH, UNIT_FACTOR))
    }

    pub fn from_jovian(mass: u128) -> (m: Mass)
        requires
            mass * KILOGRAMS_JOVIAN / (UNIT_FACTOR as int) < u128::MAX,
        ensures
            m == Self::spec_from_kilograms(
                Self::spec_kilograms_in(mass as int, KILOGRAMS_JOVIAN as int),
            ),
            m.jovian == mass,
            m.wf(),
    {
        proof {
            lemma_unit_kept(mass as int, KILOGRAMS_JOVIAN as int, UNIT_FACTOR as int);
        }
        Self::from_kilograms(mul_div_round(mass, KILOGRAMS_JOVIAN, UNIT_FACTOR))
    }

    pub fn from_solar(mass: u128) -> (m: Mass)
        requires
            mass * KILOGRAMS_SOLAR / (UNIT_FACTOR as int) < u128::MAX,
        ensures
            m == Self::spec_from_kilograms(
                Self::spec_kilograms_in(mass as int, KILOGRAMS_SOLAR as int),
            ),
            m.solar == mass,
            m.wf(),
    {
        proof {
            lemma_unit_kept(mass as int, KILOGRAMS_SOLAR as int, UNIT_FACTOR as int);
        }
        Self::from_kilograms(mul_div_round(mass, KILOGRAMS_SOLAR, UNIT_FACTOR))
    }

    /// The unit to show the mass in: solar masses above ninety-seven jovian masses,
    /// jovian masses above thirty-five earth masses, earth masses above eight lunar
    /// masses, else lunar masses.
    pub open spec fn spec_display_unit(&self) -> MassUnit {
        if self.jovian > SHOWN_IN_SOLAR_ABOVE {
            MassUnit::Solar
        } else if self.earth > SHOWN_IN_JOVIAN_ABOVE {
            MassUnit::Jovian
        } else if self.lunar > SHOWN_IN_EARTH_ABOVE {
            MassUnit::Earth
        } else {
            MassUnit::Lunar
        }
    }

    /// The unit to show the mass in.
    pub fn display_unit(&self) -> (unit: MassUnit)
        ensures
            unit == self.spec_display_unit(),
    {
        if self.jovian > SHOWN_IN_SOLAR_ABOVE {
            MassUnit::Solar
        } else if self.earth > SHOWN_IN_JOVIAN_ABOVE {
            MassUnit::Jovian
        } else if self.lunar > SHOWN_IN_EARTH_ABOVE {
            MassUnit::Earth
        } else {
            MassUnit::Lunar
        }
    }

    /// Rebuilds every field from the kilograms.
    pub fn kg_updated(&mut self)
        ensures
            *final(self) == Self::spec_from_kilograms(old(self).kg as int),
    {
        *self = Self::from_kilograms(self.kg);
    }

    /// Rebuilds every field from the lunar masses.
    pub fn lunar_updated(&mut self)
        requires
            old(self).lunar * KILOGRAMS_LUNAR / (UNIT_FACTOR as int) < u128::MAX,
        ensures
            *final(self) == Self::spec_from_kilograms(
                Self::spec_kilograms_in(old(self).lunar as int, KILOGRAMS_LUNAR as int),
            ),
            final(self).lunar == old(self).lunar,
    {
        *self = Self::from_lunar(self.lunar);
    }

    /// Rebuilds every field from the earth masses.
    pub fn earth_updated(&mut self)
        requires
            old(self).earth * KILOGRAMS_EARTH / (UNIT_FACTOR as int) < u128::MAX,
        ensures
            *final(self) == Self::spec_from_kilograms(
                Self::spec_kilograms_in(old(self).earth as int, KILOGRAMS_EARTH as int),
            ),
            final(self).earth == old(self).earth,
    {
        *self = Self::from_earth(self.earth);
    }

    /// Rebuilds every field from the jovian masses.
    pub fn jovian_updated(&mut self)
        requires
            old(self).jovian * KILOGRAMS_JOVIAN / (UNIT_FACTOR as int) < u128::MAX,
        ensures
            *final(self) == Self::spec_from_kilograms(
                Self::spec_kilograms_in(old(self).jovian as int, KILOGRAMS_JOVIAN as int),
            ),
            final(self).jovian == old(self).jovian,
    {
        *self = Self::from_jovian(self.jovian);
    }

    /// Rebuilds every field from the solar masses.
    pub fn solar_updated(&mut self)
        requires
            old(self).solar * KILOGRAMS_SOLAR / (UNIT_FACTOR as int) < u128::MAX,
        ensures
            *final(self) == Self::spec_from_kilograms(
                Self::spec_kilograms_in(old(self).solar as int, KILOGRAMS_SOLAR as int),
            ),
            final(self).solar == old(self).solar,
    {
        *self = Self::from_solar(self.solar);
    }
}

/// Seconds in one minute.
pub const SECONDS_MINUTE: i128 = 60;

/// Seconds in one hour.
pub const SECONDS_HOUR: i128 = 3_600;

/// Seconds in one day.
pub const SECONDS_DAY: i128 = 86_400;

/// Seconds in one month, a twelfth of a year.
pub const SECONDS_MONTH: i128 = 2_629_746;

/// Seconds in one year.
pub const SECONDS_YEAR: i128 = 31_556_952;

/// The units a span of time is held in.
#[derive(Clone, Copy, Debug, PartialEq, Eq, Structural)]
pub enum TimeScale {
    Seconds,
    Minutes,
    Hours,
    Days,
    Months,
    Years,
}

impl TimeScale {
    /// The name of the unit, in the plural.
    pub open spec fn spec_name(&self) -> Seq<char> {
        match self {
            TimeScale::Seconds => "seconds"@,
            TimeScale::Minutes => "minutes"@,
            TimeScale::Hours => "hours"@,
            TimeScale::Days => "days"@,
            TimeScale::Months => "months"@,
            TimeScale::Years => "years"@,
        }
    }

    /// The name of the unit, in the plural.
    pub fn name(&self) -> (text: &'static str)
        ensures
            text@ == self.spec_name(),
    {
        match self {
            TimeScale::Seconds => "seconds",
            TimeScale::Minutes => "minutes",
            TimeScale::Hours => "hours",
            TimeScale::Days => "days",
            TimeScale::Months => "months",
            TimeScale::Years => "years",
        }
    }
}

/// A span of time in one unit.
#[derive(Clone, Copy, Debug, PartialEq, Eq, Structural)]
pub struct TimeUnit {
    value: i128,
    unit: TimeScale,
}

impl TimeUnit {
    pub closed spec fn spec_value(&self) -> i128 {
        self.value
    }

    pub closed spec fn spec_unit(&self) -> TimeScale {
        self.unit
    }

    pub fn value(&self) -> (value: i128)
        ensures
            value == self.spec_value(),
    {
        self.value
    }

    /// The unit itself.
    pub fn scale(&self) -> (unit: TimeScale)
        ensures
            unit == self.spec_unit(),
    {
        self.unit
    }

    /// The name of the unit.
    pub fn unit(&self) -> (name: String)
        ensures
            name@ == self.spec_unit().spec_name(),
    {
        self.unit.name().to_owned()
    }

    /// The value, a blank and the name of the unit.
    pub open spec fn spec_as_string(&self) -> Seq<char> {
        spec_to_text(self.spec_value() as int) + seq![' '] + self.spec_unit().spec_name()
    }

    /// The value, a blank and the name of the unit, as in `259.35 days`.
    pub fn as_string(&self) -> (text: String)
        ensures
            text@ == self.spec_as_string(),
    {
        proof {
            reveal_strlit(" ");
        }
        let mut text = to_text(self.value);
        text.append(" ");
        text.append(self.unit.name());
        assert(text@ =~= self.spec_as_string());
        text
    }

    /// The value rounded to the decimal place `decimal`, which may lie before the
    /// point, in the same unit.
    pub fn round_to(self, decimal: i32) -> (rounded: TimeUnit)
        requires
            -LIMIT <= self.spec_value() <= LIMIT,
        ensures
            rounded.spec_unit() == self.spec_unit(),
            rounded.spec_value() == round_half_away(
                self.spec_value() as int,
                place_step(decimal as int),
            ),
    {
        TimeUnit { value: round_to_place(self.value, decimal), unit: self.unit }
    }
}

/// A span of time, negative when it runs backwards.
#[derive(Clone, Copy, Debug, PartialEq, Eq, Structural)]
pub struct Duration {
    /// Seconds, the canonical unit.
    pub s: i128,
    /// Minutes.
    pub min: i128,
    /// Hours.
    pub h: i128,
    /// Days.
    pub d: i128,
    /// Months.
    pub m: i128,
    /// Years.
    pub y: i128,
}

impl Duration {
    /// The span of `seconds` seconds, in all its units.
    pub open spec fn spec_from_seconds(seconds: int) -> Duration {
        Duration {
            s: seconds as i128,
            min: nearest_ratio(seconds, SECONDS_MINUTE as int) as i128,
            h: nearest_ratio(seconds, SECONDS_HOUR as int) as i128,
            d: nearest_ratio(seconds, SECONDS_DAY as int) as i128,
            m: nearest_ratio(seconds, SECONDS_MONTH as int) as i128,
            y: nearest_ratio(seconds, SECONDS_YEAR as int) as i128,
        }
    }

    /// All fields stand for the same span.
    pub open spec fn wf(&self) -> bool {
        *self == Self::spec_from_seconds(self.s as int)
    }

    /// The magnitude held for one unit.
    pub open spec fn in_scale(&self, scale: TimeScale) -> i128 {
        match scale {
            TimeScale::Seconds => self.s,
            TimeScale::Minutes => self.min,
            TimeScale::Hours => self.h,
            TimeScale::Days => self.d,
            TimeScale::Months => self.m,
            TimeScale::Years => self.y,
        }
    }

    /// The largest unit in which the span counts at least one, seconds when there is none.
    pub open spec fn spec_smallest_scale(&self) -> TimeScale {
        if self.y >= SCALE {
            TimeScale::Years
        } else if self.m >= SCALE {
            TimeScale::Months
        } else if self.d >= SCALE {
            TimeScale::Days
        } else if self.h >= SCALE {
            TimeScale::Hours
        } else if self.min >= SCALE {
            TimeScale::Minutes
        } else {
            TimeScale::Seconds
        }
    }

    pub fn from_seconds(seconds: i128) -> (t: Duration)
        ensures
            t == Self::spec_from_seconds(seconds as int),
            t.wf(),
    {
        Duration {
            s: seconds,
            min: nearest(seconds, SECONDS_MINUTE),
            h: nearest(seconds, SECONDS_HOUR),
            d: nearest(seconds, SECONDS_DAY),
            m: nearest(seconds, SECONDS_MONTH),
            y: nearest(seconds, SECONDS_YEAR),
        }
    }

    pub fn from_minutes(duration: i128) -> (t: Duration)
        requires
            fits(duration * SECONDS_MINUTE),
        ensures
            t == Self::spec_from_seconds(duration * SECONDS_MINUTE),
            t.min == duration,
            t.wf(),
    {
        proof {
            lemma_nearest_of_multiple(duration as int, SECONDS_MINUTE as int);
        }
        Self::from_seconds(duration * SECONDS_MINUTE)
    }

    pub fn from_hours(duration: i128) -> (t: Duration)
        requires
            fits(duration * SECONDS_HOUR),
        ensures
            t == Self::spec_from_seconds(duration * SECONDS_HOUR),
            t.h == duration,
            t.wf(),
    {
        proof {
            lemma_nearest_of_multiple(duration as int, SECONDS_HOUR as int);
        }
        Self::from_seconds(duration * SECONDS_HOUR)
    }

    pub fn from_days(duration: i128) -> (t: Duration)
        requires
            fits(duration * SECONDS_DAY),
        ensures
            t == Self::spec_from_seconds(duration * SECONDS_DAY),
            t.d == duration,
            t.wf(),
    {
        proof {
            lemma_nearest_of_multiple(duration as int, SECONDS_DAY as int);
        }
        Self::from_seconds(duration * SECONDS_DAY)
    }

    pub fn from_months(duration: i128) -> (t: Duration)
        requires
            fits(duration * SECONDS_MONTH),
        ensures
            t == Self::spec_from_seconds(duration * SECONDS_MONTH),
            t.m == duration,
            t.wf(),
    {
        proof {
            lemma_nearest_of_multiple(duration as int, SECONDS_MONTH as int);
        }
        Self::from_seconds(duration * SECONDS_MONTH)
    }

    pub fn from_years(duration: i128) -> (t: Duration)
        requires
            fits(duration * SECONDS_YEAR),
        ensures
            t == Self::spec_from_seconds(duration * SECONDS_YEAR),
            t.y == duration,
            t.wf(),
    {
        proof {
            lemma_nearest_of_multiple(duration as int, SECONDS_YEAR as int);
        }
        Self::from_seconds(duration * SECONDS_YEAR)
    }

    /// Every field rounded to `decimal` fractional digits, each on its own.
    pub fn round_to(self, decimal: usize) -> (t: Duration)
        requires
            -LIMIT <= self.s <= LIMIT,
            -LIMIT <= self.min <= LIMIT,
            -LIMIT <= self.h <= LIMIT,
            -LIMIT <= self.d <= LIMIT,
            -LIMIT <= self.m <= LIMIT,
            -LIMIT <= self.y <= LIMIT,
        ensures
            forall|scale: TimeScale|
                #![trigger t.in_scale(scale)]
                t.in_scale(scale) == round_half_away(
                    self.in_scale(scale) as int,
                    grid_step(decimal as int),
                ),
    {
        Duration {
            s: round_to(self.s, decimal),
            min: round_to(self.min, decimal),
            h: round_to(self.h, decimal),
            d: round_to(self.d, decimal),
            m: round_to(self.m, decimal),
            y: round_to(self.y, decimal),
        }
    }

    /// The span in one of its units.
    pub fn in_unit(&self, unit: TimeScale) -> (held: TimeUnit)
        ensures
            held.spec_value() == self.in_scale(unit),
            held.spec_unit() == unit,
    {
        let value: i128 = match unit {
            TimeScale::Seconds => self.s,
            TimeScale::Minutes => self.min,
            TimeScale::Hours => self.h,
            TimeScale::Days => self.d,
            TimeScale::Months => self.m,
            TimeScale::Years => self.y,
        };
        TimeUnit { value, unit }
    }

    pub fn seconds(&self) -> (held: TimeUnit)
        ensures
            held.spec_value() == self.s,
            held.spec_unit() == TimeScale::Seconds,
    {
        self.in_unit(TimeScale::Seconds)
    }

    pub fn minutes(&self) -> (held: TimeUnit)
        ensures
            held.spec_value() == self.min,
            held.spec_unit() == TimeScale::Minutes,
    {
        self.in_unit(TimeScale::Minutes)
    }

    pub fn hours(&self) -> (held: TimeUnit)
        ensures
            held.spec_value() == self.h,
            held.spec_unit() == TimeScale::Hours,
    {
        self.in_unit(TimeScale::Hours)
    }

    pub fn days(&self) -> (held: TimeUnit)
        ensures
            held.spec_value() == self.d,
            held.spec_unit() == TimeScale::Days,
    {
        self.in_unit(TimeScale::Days)
    }

    pub fn months(&self) -> (held: TimeUnit)
        ensures
            held.spec_value() == self.m,
            held.spec_unit() == TimeScale::Months,
    {
        self.in_unit(TimeScale::Months)
    }

    pub fn years(&self) -> (held: TimeUnit)
        ensures
            held.spec_value() == self.y,
            held.spec_unit() == TimeScale::Years,
    {
        self.in_unit(TimeScale::Years)
    }

    /// The span in the unit to show it in: the largest unit in which it counts at least
    /// one, seconds when it counts less than one in every unit.
    pub fn smallest_duration(&self) -> (held: TimeUnit)
        ensures
            held.spec_unit() == self.spec_smallest_scale(),
            held.spec_value() == self.in_scale(self.spec_smallest_scale()),
    {
        if self.y >= SCALE {
            self.years()
        } else if self.m >= SCALE {
            self.months()
        } else if self.d >= SCALE {
            self.days()
        } else if self.h >= SCALE {
            self.hours()
        } else if self.min >= SCALE {
            self.minutes()
        } else {
            self.seconds()
        }
    }

    /// The span written out in the unit to show it in.
    pub fn smallest_duration_formatted(&self) -> (text: String)
        ensures
            text@ == spec_to_text(self.in_scale(self.spec_smallest_scale()) as int) + seq![' ']
                + self.spec_smallest_scale().spec_name(),
    {
        self.smallest_duration().as_string()
    }

    /// The sum of two spans.
    pub fn add(self, rhs: Duration) -> (t: Duration)
        requires
            fits(self.s + rhs.s),
        ensures
            t == Self::spec_from_seconds(self.s + rhs.s),
    {
        Self::from_seconds(self.s + rhs.s)
    }

    /// The difference of two spans.
    pub fn sub(self, rhs: Duration) -> (t: Duration)
        requires
            fits(self.s - rhs.s),
        ensures
            t == Self::spec_from_seconds(self.s - rhs.s),
    {
        Self::from_seconds(self.s - rhs.s)
    }

    /// The span times a fixed-point factor, rounded to the nearest step.
    pub fn mul(self, rhs: i128) -> (t: Duration)
        requires
            fits(ratio(self.s * rhs, SCALE as int) + 1),
            fits(ratio(self.s * rhs, SCALE as int) - 1),
        ensures
            t == Self::spec_from_seconds(nearest_ratio(self.s * rhs, SCALE as int)),
    {
        Self::from_seconds(mul_div_nearest(self.s, rhs, SCALE))
    }

    /// The span divided by a fixed-point number, rounded to the nearest step.
    pub fn div(self, rhs: i128) -> (t: Duration)
        requires
            rhs != 0,
            fits(ratio(self.s * SCALE, rhs as int) + 1),
            fits(ratio(self.s * SCALE, rhs as int) - 1),
        ensures
            t == Self::spec_from_seconds(nearest_ratio(self.s * SCALE, rhs as int)),
    {
        Self::from_seconds(mul_div_nearest(self.s, SCALE, rhs))
    }
}

/// A quantity that is built from, and measured by, one magnitude in its canonical
/// unit.
pub trait Calculus: Sized {
    /// The magnitude in the canonical unit.
    spec fn spec_base_quantity(&self) -> int;

    /// Whether `new` takes this magnitude.
    spec fn spec_accepts(quantity: int) -> bool;

    /// The quantity of this magnitude.
    spec fn spec_new(quantity: int) -> Self;

    fn base_quantity(&self) -> (quantity: i128)
        ensures
            quantity == self.spec_base_quantity(),
    ;

    fn new(quantity: i128) -> (made: Self)
        requires
            Self::spec_accepts(quantity as int),
        ensures
            made == Self::spec_new(quantity as int),
    ;
}

impl Calculus for Duration {
    open spec fn spec_base_quantity(&self) -> int {
        self.s as int
    }

    open spec fn spec_accepts(quantity: int) -> bool {
        true
    }

    open spec fn spec_new(quantity: int) -> Duration {
        Duration::spec_from_seconds(quantity)
    }

    fn base_quantity(&self) -> (quantity: i128) {
        self.s
    }

    fn new(quantity: i128) -> (made: Duration) {
        Duration::from_seconds(quantity)
    }
}

impl Calculus for Distance {
    open spec fn spec_base_quantity(&self) -> int {
        self.m as int
    }

    open spec fn spec_accepts(quantity: int) -> bool {
        true
    }

    open spec fn spec_new(quantity: int) -> Distance {
        Distance::spec_from_meters(quantity)
    }

    fn base_quantity(&self) -> (quantity: i128) {
        self.m
    }

    fn new(quantity: i128) -> (made: Distance) {
        Distance::from_meters(quantity)
    }
}

impl Calculus for Velocity {
    open spec fn spec_base_quantity(&self) -> int {
        self.mps as int
    }

    open spec fn spec_accepts(quantity: int) -> bool {
        fits(quantity * SPEED_STEP)
    }

    open spec fn spec_new(quantity: int) -> Velocity {
        Velocity::spec_from_meters_per_second(quantity)
    }

    fn base_quantity(&self) -> (quantity: i128) {
        self.mps
    }

    fn new(quantity: i128) -> (made: Velocity) {
        Velocity::from_meters_per_second(quantity)
    }
}

} // verus!
