//! Angles, in radians on the fixed-point grid.

use vstd::prelude::*;

verus! {

/// Half a turn.
pub const PI: i128 = 3_141_592_653_589_793_238;

/// A full turn, twice `PI` on the fixed-point grid.
pub const TAU: i128 = 6_283_185_307_179_586_476;

/// The angle in `(-PI, PI]` that differs from `angle` by whole turns.
pub open spec fn spec_normalize(angle: int) -> int {
    let turned = (angle + PI - 1) % (TAU as int);
    turned - PI + 1
}

/// Brings an angle into `(-PI, PI]` by adding or removing whole turns.
pub fn normalize(angle: i128) -> (wrapped: i128)
    ensures
        wrapped == spec_normalize(angle as int),
        -PI < wrapped <= PI,
        (angle - wrapped) % (TAU as int) == 0,
{
    let rest: i128 = angle % TAU;
    // `rest` has the sign of `angle`; bring it into `[0, TAU)` first
    let turned: i128 = if rest < 0 {
        rest + TAU
    } else {
        rest
    };
    assert(turned == (angle as int) % (TAU as int));
    let wrapped: i128 = if turned > PI {
        turned - TAU
    } else {
        turned
    };
    assert((angle - wrapped) % (TAU as int) == 0);
    wrapped
}

/// Size of an angle up to which its label is moved aside: three tenths of a radian.
pub const NARROW: i128 = 300_000_000_000_000_000;

/// By how much the label of a narrow angle is moved aside: a quarter of a radian.
pub const ASIDE: i128 = 250_000_000_000_000_000;

/// The direction in which the label of an angle is drawn: along the middle of the
/// angle, and for a narrow angle a quarter of a radian further, on the side the angle
/// opens to. An angle of zero counts as opening to the positive side.
pub open spec fn spec_label_direction(angle: int) -> int {
    let middle = if angle >= 0 {
        angle / 2
    } else {
        -((-angle) / 2)
    };
    if angle > NARROW || angle < -NARROW {
        middle
    } else if angle >= 0 {
        middle + ASIDE
    } else {
        middle - ASIDE
    }
}

/// The direction in which the label of an angle in `[-PI, PI]` is drawn.
pub fn label_direction(angle: i128) -> (direction: i128)
    requires
        -PI <= angle <= PI,
    ensures
        direction == spec_label_direction(angle as int),
{
    let middle: i128 = angle / 2;
    if angle > NARROW || angle < -NARROW {
        middle
    } else if angle >= 0 {
        middle + ASIDE
    } else {
        middle - ASIDE
    }
}

/// Hundredths of a degree in half a turn.
pub const HALF_TURN_HUNDREDTHS: i128 = 18_000;

/// Steps of the grid in a hundredth.
pub const HUNDREDTH: i128 = 10_000_000_000_000_000;

/// An angle in degrees, rounded once to two fractional digits.
pub open spec fn spec_degrees(angle: int) -> int {
    crate::fixed::nearest_ratio(angle * HALF_TURN_HUNDREDTHS, PI as int) * HUNDREDTH
}

/// An angle of at most a turn, in degrees rounded to two fractional digits.
pub fn degrees(angle: i128) -> (rounded: i128)
    requires
        -TAU <= angle <= TAU,
    ensures
        rounded == spec_degrees(angle as int),
{
    proof {
        let n = angle * HALF_TURN_HUNDREDTHS;
        assert(crate::fixed::magnitude(n) <= 36_000 * crate::fixed::magnitude(PI as int))
            by (nonlinear_arith)
            requires
                n == angle * HALF_TURN_HUNDREDTHS,
                -TAU <= angle <= TAU,
                TAU == 2 * PI,
                PI == 3_141_592_653_589_793_238,
                HALF_TURN_HUNDREDTHS == 18_000,
                crate::fixed::magnitude(PI as int) == PI,
                crate::fixed::magnitude(n) == if n >= 0 {
                    n
                } else {
                    -n
                },
        ;
        crate::fixed::lemma_ratio_magnitude(n, PI as int, 36_000);
        crate::fixed::lemma_nearest_ratio_threshold(n, PI as int, 36_001);
    }
    let hundredths: i128 = crate::fixed::mul_div_nearest(angle, HALF_TURN_HUNDREDTHS, PI);
    hundredths * HUNDREDTH
}

} // verus!
