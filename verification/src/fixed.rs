//! Fixed-point numbers with eighteen fractional digits, held in 128-bit integers,
//! and the exactly rounded operations the rest of the crate is built from.

use vstd::arithmetic::div_mod::lemma_fundamental_div_mod_converse;
use vstd::prelude::*;

verus! {

/// Steps of the fixed-point grid per unit: a stored integer `n` stands for `n / SCALE`.
pub const SCALE: i128 = 1_000_000_000_000_000_000;

/// Whether an integer and its negative can both be held in 128 bits with a sign.
pub open spec fn fits(x: int) -> bool {
    -i128::MAX <= x <= i128::MAX
}

/// Quotient of `n` by a positive `d`, rounded toward zero.
pub open spec fn trunc_div(n: int, d: int) -> int {
    if n >= 0 {
        n / d
    } else {
        -((-n) / d)
    }
}

/// Quotient of `n` by a non-zero `d`, rounded toward zero.
pub open spec fn ratio(n: int, d: int) -> int {
    if d > 0 {
        trunc_div(n, d)
    } else {
        trunc_div(-n, -d)
    }
}

/// `r` is the integer square root of `n`: the largest integer whose square does not exceed `n`.
pub open spec fn is_sqrt_floor(n: int, r: int) -> bool {
    0 <= r && r * r <= n && n < (r + 1) * (r + 1)
}

/// The integer square root of a non-negative `n`.
pub open spec fn sqrt_floor(n: int) -> int {
    choose|r: int| is_sqrt_floor(n, r)
}

/// An integer has at most one integer square root.
pub proof fn lemma_sqrt_floor_unique(n: int, r: int)
    requires
        is_sqrt_floor(n, r),
    ensures
        sqrt_floor(n) == r,
{
    let s = sqrt_floor(n);
    assert(is_sqrt_floor(n, s));
    if s < r {
        assert((s + 1) * (s + 1) <= r * r) by (nonlinear_arith)
            requires
                0 <= s,
                s + 1 <= r,
        ;
    }
    if r < s {
        assert((r + 1) * (r + 1) <= s * s) by (nonlinear_arith)
            requires
                0 <= r,
                r + 1 <= s,
        ;
    }
}

/// Every non-negative integer has an integer square root.
pub proof fn lemma_sqrt_floor_exists(n: int)
    requires
        0 <= n,
    ensures
        is_sqrt_floor(n, sqrt_floor(n)),
    decreases n,
{
    if n == 0 {
        assert(is_sqrt_floor(0, 0));
    } else {
        lemma_sqrt_floor_exists(n - 1);
        let r = sqrt_floor(n - 1);
        if n < (r + 1) * (r + 1) {
            assert(is_sqrt_floor(n, r));
        } else {
            assert((r + 1) * (r + 1) < (r + 2) * (r + 2)) by (nonlinear_arith)
                requires
                    0 <= r,
            ;
            assert(is_sqrt_floor(n, r + 1));
        }
    }
}

/// A quotient by a positive divisor does not shrink when the dividend grows.
pub proof fn lemma_div_monotonic(x: int, y: int, d: int)
    requires
        x <= y,
        0 < d,
    ensures
        x / d <= y / d,
{
    vstd::arithmetic::div_mod::lemma_div_is_ordered(x, y, d);
}

/// A quotient rounded toward zero stays between the bounds the exact quotient lies between.
pub proof fn lemma_ratio_bounds(n: int, d: int, low: int, high: int)
    requires
        0 < d,
        low <= 0 <= high,
        low * d <= n <= high * d,
    ensures
        low <= ratio(n, d) <= high,
{
    if n >= 0 {
        assert(n / d <= high) by (nonlinear_arith)
            requires
                0 <= n <= high * d,
                0 < d,
        ;
        assert(0 <= n / d) by (nonlinear_arith)
            requires
                0 <= n,
                0 < d,
        ;
    } else {
        assert((-low) * d == -(low * d)) by (nonlinear_arith);
        assert((-n) / d <= -low) by (nonlinear_arith)
            requires
                0 <= -n <= (-low) * d,
                0 < d,
        ;
        assert(0 <= (-n) / d) by (nonlinear_arith)
            requires
                0 <= -n,
                0 < d,
        ;
    }
}

/// A quotient by a positive divisor, rounded toward zero, has no sign its dividend
/// lacks.
pub proof fn lemma_ratio_sign(n: int, d: int)
    requires
        0 < d,
    ensures
        n >= 0 ==> ratio(n, d) >= 0,
        n <= 0 ==> ratio(n, d) <= 0,
{
    if n >= 0 {
        assert(n / d >= 0) by (nonlinear_arith)
            requires
                0 <= n,
                0 < d,
        ;
    }
    if n <= 0 {
        assert((-n) / d >= 0) by (nonlinear_arith)
            requires
                0 <= -n,
                0 < d,
        ;
    }
}

/// A quotient rounded toward zero is no larger in size than the exact quotient.
pub proof fn lemma_ratio_magnitude(n: int, d: int, bound: int)
    requires
        d != 0,
        0 <= bound,
        magnitude(n) <= bound * magnitude(d),
    ensures
        magnitude(ratio(n, d)) <= bound,
{
    lemma_ratio_by_magnitude(n, d);
    let mn = magnitude(n);
    let md = magnitude(d);
    assert(0 <= mn / md <= bound) by (nonlinear_arith)
        requires
            0 <= mn <= bound * md,
            0 < md,
    ;
}

/// Where the dividend is at least `count` divisors in size, so is the nearest quotient;
/// where it is less, the nearest quotient is at most `count`.
pub proof fn lemma_nearest_ratio_threshold(n: int, d: int, count: int)
    requires
        d != 0,
        0 <= count,
    ensures
        magnitude(n) >= count * magnitude(d) ==> magnitude(nearest_ratio(n, d)) >= count,
        magnitude(n) < count * magnitude(d) ==> magnitude(nearest_ratio(n, d)) <= count,
        magnitude(ratio(n, d)) <= magnitude(nearest_ratio(n, d)) <= magnitude(ratio(n, d)) + 1,
        (nearest_ratio(n, d) > 0) ==> ((n > 0) == (d > 0)),
        (nearest_ratio(n, d) < 0) ==> ((n < 0) == (d > 0)),
{
    lemma_ratio_by_magnitude(n, d);
    let mn = magnitude(n);
    let md = magnitude(d);
    assert(0 <= mn / md && 0 <= mn % md < md) by (nonlinear_arith)
        requires
            0 <= mn,
            0 < md,
    ;
    if mn >= count * md {
        assert(mn / md >= count) by (nonlinear_arith)
            requires
                mn >= count * md,
                0 < md,
                0 <= count,
        ;
    }
    if mn < count * md {
        assert(mn / md < count) by (nonlinear_arith)
            requires
                0 <= mn < count * md,
                0 < md,
        ;
    }
    if n == 0 {
        assert(0int / md == 0 && 0int % md == 0) by (nonlinear_arith)
            requires
                0 < md,
        ;
    }
}

/// Quotient and remainder of the full product `a * b` by `c`; none where the quotient
/// is too large to be held.
fn mul_div_rem_checked(a: u128, b: u128, c: u128) -> (res: Option<(u128, u128)>)
    requires
        c > 0,
    ensures
        res.is_some() <==> (a * b) / (c as int) <= u128::MAX,
        res.is_some() ==> {
            &&& res.unwrap().0 * c + res.unwrap().1 == a * b
            &&& res.unwrap().1 < c
            &&& res.unwrap().0 == (a * b) / (c as int)
        },
    decreases b,
{
    if b == 0 {
        assert(a * b == 0) by (nonlinear_arith)
            requires
                b == 0,
        ;
        return Some((0, 0));
    }
    let half: u128 = b / 2;
    let odd: bool = b % 2 == 1;
    let ghost bit: int = if odd { 1 } else { 0 };
    proof {
        assert(a * b == 2 * (a * half) + bit * a) by (nonlinear_arith)
            requires
                b == 2 * half + bit,
        ;
        assert(0 <= bit * a) by (nonlinear_arith)
            requires
                0 <= bit,
                0 <= a,
        ;
        assert(0 <= a * half) by (nonlinear_arith)
            requires
                0 <= a,
                0 <= half,
        ;
        lemma_div_monotonic(a * half, a * b, c as int);
    }
    let (q, r) = match mul_div_rem_checked(a, half, c) {
        Some(found) => found,
        None => {
            return None;
        },
    };
    let qa: u128 = a / c;
    let ra: u128 = a % c;
    // twice the remainder, reduced below c
    let carry_double: bool = r >= c - r;
    let r2: u128 = if carry_double { r - (c - r) } else { r + r };
    // plus a, when the lowest bit of b is set
    let carry_add: bool = odd && r2 >= c - ra;
    let r3: u128 = if !odd { r2 } else if carry_add { r2 - (c - ra) } else { r2 + ra };
    let ghost cd: int = if carry_double { 1 } else { 0 };
    let ghost ca: int = if carry_add { 1 } else { 0 };
    let ghost total: int = 2 * q + cd + bit * qa + ca;
    proof {
        assert(a == qa * c + ra) by {
            vstd::arithmetic::div_mod::lemma_fundamental_div_mod(a as int, c as int);
            assert(c * qa == qa * c) by (nonlinear_arith);
        }
        assert(total * c == 2 * (q * c) + cd * c + bit * (qa * c) + ca * c) by (nonlinear_arith)
            requires
                total == 2 * q + cd + bit * qa + ca,
        ;
        assert(bit * a == bit * (qa * c) + bit * ra) by (nonlinear_arith)
            requires
                a == qa * c + ra,
        ;
        assert(bit * ra == if odd { ra as int } else { 0 });
        assert(cd * c == if carry_double { c as int } else { 0 });
        assert(ca * c == if carry_add { c as int } else { 0 });
        assert(total * c + r3 == a * b);
        lemma_fundamental_div_mod_converse(a * b, c as int, total, r3 as int);
        assert(0 <= bit * qa) by (nonlinear_arith)
            requires
                0 <= bit,
                0 <= qa,
        ;
        assert(bit * qa == if odd { qa as int } else { 0 });
    }
    if q > u128::MAX - q {
        return None;
    }
    let mut quotient: u128 = q + q;
    if carry_double {
        if quotient == u128::MAX {
            return None;
        }
        quotient = quotient + 1;
    }
    if odd {
        if quotient > u128::MAX - qa {
            return None;
        }
        quotient = quotient + qa;
    }
    if carry_add {
        if quotient == u128::MAX {
            return None;
        }
        quotient = quotient + 1;
    }
    Some((quotient, r3))
}

/// Quotient and remainder of the full product `a * b` by `c`.
fn mul_div_rem(a: u128, b: u128, c: u128) -> (res: (u128, u128))
    requires
        c > 0,
        (a * b) / (c as int) <= u128::MAX,
    ensures
        res.0 * c + res.1 == a * b,
        res.1 < c,
        res.0 == (a * b) / (c as int),
{
    match mul_div_rem_checked(a, b, c) {
        Some(found) => found,
        None => (0, 0),
    }
}

/// `a * b / c` rounded down, computed without losing the high bits of the product.
pub fn mul_div_floor(a: u128, b: u128, c: u128) -> (q: u128)
    requires
        c > 0,
        (a * b) / (c as int) <= u128::MAX,
    ensures
        q == (a * b) / (c as int),
{
    mul_div_rem(a, b, c).0
}

/// `a * b / c` rounded to the nearest integer, a tie going up.
pub fn mul_div_round(a: u128, b: u128, c: u128) -> (q: u128)
    requires
        c > 0,
        (a * b) / (c as int) < u128::MAX,
    ensures
        q == nearest_div(a * b, c as int),
{
    let (floor, rest) = mul_div_rem(a, b, c);
    proof {
        lemma_fundamental_div_mod_converse(a * b, c as int, floor as int, rest as int);
    }
    if rest >= c - rest {
        floor + 1
    } else {
        floor
    }
}

/// Largest magnitude for which every rounding of this module is exact: ten to the power 38.
pub const LIMIT: i128 = 100_000_000_000_000_000_000_000_000_000_000_000_000;

/// The size of an integer, without its sign.
pub open spec fn magnitude(x: int) -> int {
    if x >= 0 {
        x
    } else {
        -x
    }
}

/// Quotient of a non-negative `n` by a positive `d`, rounded to the nearest integer,
/// a tie going up.
pub open spec fn nearest_div(n: int, d: int) -> int {
    n / d + if 2 * (n % d) >= d {
        1int
    } else {
        0int
    }
}

/// Quotient of `n` by a non-zero `d`, rounded to the nearest integer, a tie going away from zero.
pub open spec fn nearest_ratio(n: int, d: int) -> int {
    if (n >= 0) == (d > 0) {
        nearest_div(magnitude(n), magnitude(d))
    } else {
        -nearest_div(magnitude(n), magnitude(d))
    }
}

/// The size of a product is the product of the sizes.
pub proof fn lemma_magnitude_of_product(a: int, b: int)
    ensures
        magnitude(a * b) == magnitude(a) * magnitude(b),
        (a * b >= 0) == (a == 0 || b == 0 || ((a > 0) == (b > 0))),
{
    assert(magnitude(a * b) == magnitude(a) * magnitude(b) && ((a * b >= 0) == (a == 0 || b == 0
        || ((a > 0) == (b > 0))))) by (nonlinear_arith)
        requires
            magnitude(a) == if a >= 0 {
                a
            } else {
                -a
            },
            magnitude(b) == if b >= 0 {
                b
            } else {
                -b
            },
            magnitude(a * b) == if a * b >= 0 {
                a * b
            } else {
                -(a * b)
            },
    ;
}

/// `ratio` is the quotient of the sizes, with the sign of the exact quotient.
pub proof fn lemma_ratio_by_magnitude(n: int, d: int)
    requires
        d != 0,
    ensures
        ratio(n, d) == if (n >= 0) == (d > 0) {
            magnitude(n) / magnitude(d)
        } else {
            -(magnitude(n) / magnitude(d))
        },
{
    if n == 0 {
        assert(0int / magnitude(d) == 0) by (nonlinear_arith)
            requires
                magnitude(d) > 0,
        ;
    }
}

/// The size of `x`, without its sign.
pub fn magnitude_of(x: i128) -> (m: u128)
    ensures
        m == magnitude(x as int),
{
    if x >= 0 {
        x as u128
    } else if x == i128::MIN {
        170_141_183_460_469_231_731_687_303_715_884_105_728u128
    } else {
        (-x) as u128
    }
}

/// `a * b / c`, rounded toward zero, exact for every product whose quotient fits.
pub fn mul_div(a: i128, b: i128, c: i128) -> (q: i128)
    requires
        c != 0,
        fits(ratio(a * b, c as int)),
    ensures
        q == ratio(a * b, c as int),
{
    let ma: u128 = magnitude_of(a);
    let mb: u128 = magnitude_of(b);
    let mc: u128 = magnitude_of(c);
    proof {
        lemma_magnitude_of_product(a as int, b as int);
        lemma_ratio_by_magnitude(a * b, c as int);
    }
    let qm: u128 = mul_div_floor(ma, mb, mc);
    let negative: bool = ((a < 0) != (b < 0)) != (c < 0);
    if negative && a != 0 && b != 0 {
        -(qm as i128)
    } else {
        proof {
            if a == 0 || b == 0 {
                assert(0int / (mc as int) == 0) by (nonlinear_arith)
                    requires
                        mc > 0,
                ;
            }
        }
        qm as i128
    }
}

/// `a * b / c`, rounded to the nearest integer, a tie going away from zero.
pub fn mul_div_nearest(a: i128, b: i128, c: i128) -> (q: i128)
    requires
        c != 0,
        fits(ratio(a * b, c as int) + 1),
        fits(ratio(a * b, c as int) - 1),
    ensures
        q == nearest_ratio(a * b, c as int),
{
    let ma: u128 = magnitude_of(a);
    let mb: u128 = magnitude_of(b);
    let mc: u128 = magnitude_of(c);
    proof {
        lemma_magnitude_of_product(a as int, b as int);
        lemma_ratio_by_magnitude(a * b, c as int);
    }
    let (floor, rest) = mul_div_rem(ma, mb, mc);
    proof {
        lemma_fundamental_div_mod_converse(ma * mb, mc as int, floor as int, rest as int);
    }
    let qm: u128 = if rest >= mc - rest {
        floor + 1
    } else {
        floor
    };
    let negative: bool = ((a < 0) != (b < 0)) != (c < 0);
    if negative && a != 0 && b != 0 {
        -(qm as i128)
    } else {
        proof {
            if a == 0 || b == 0 {
                assert(0int / (mc as int) == 0 && 0int % (mc as int) == 0) by (nonlinear_arith)
                    requires
                        mc > 0,
                ;
            }
        }
        qm as i128
    }
}

/// The integer square root of `n`.
pub fn isqrt(n: u128) -> (r: u128)
    ensures
        is_sqrt_floor(n as int, r as int),
        r == sqrt_floor(n as int),
{
    let mut low: u128 = 0;
    let mut high: u128 = 18_446_744_073_709_551_616;
    assert(n < high * high) by (nonlinear_arith)
        requires
            n <= u128::MAX,
            high == 18_446_744_073_709_551_616u128,
    ;
    assert(low * low == 0) by (nonlinear_arith)
        requires
            low == 0,
    ;
    while high - low > 1
        invariant
            low < high <= 18_446_744_073_709_551_616,
            low * low <= n,
            n < high * high,
        decreases high - low,
    {
        let mid: u128 = low + (high - low) / 2;
        assert(mid * mid < 18_446_744_073_709_551_616 * 18_446_744_073_709_551_616)
            by (nonlinear_arith)
            requires
                0 <= mid < 18_446_744_073_709_551_616,
        ;
        if mid * mid <= n {
            low = mid;
        } else {
            high = mid;
        }
    }
    proof {
        lemma_sqrt_floor_unique(n as int, low as int);
    }
    low
}

/// `a * b / c`, rounded toward zero; none where `c` is zero or the quotient cannot be
/// held with its negative.
pub fn checked_mul_div(a: i128, b: i128, c: i128) -> (res: Option<i128>)
    ensures
        res.is_some() <==> c != 0 && fits(ratio(a * b, c as int)),
        res.is_some() ==> res.unwrap() == ratio(a * b, c as int),
{
    if c == 0 {
        return None;
    }
    let ma: u128 = magnitude_of(a);
    let mb: u128 = magnitude_of(b);
    let mc: u128 = magnitude_of(c);
    proof {
        lemma_magnitude_of_product(a as int, b as int);
        lemma_ratio_by_magnitude(a * b, c as int);
        if a == 0 || b == 0 {
            assert(0int / (mc as int) == 0) by (nonlinear_arith)
                requires
                    mc > 0,
            ;
        }
    }
    let qm: u128 = match mul_div_rem_checked(ma, mb, mc) {
        Some(found) => found.0,
        None => {
            return None;
        },
    };
    if qm > 170_141_183_460_469_231_731_687_303_715_884_105_727 {
        return None;
    }
    let negative: bool = ((a < 0) != (b < 0)) != (c < 0);
    if negative && a != 0 && b != 0 {
        Some(-(qm as i128))
    } else {
        Some(qm as i128)
    }
}

/// The integer square root of `n` times `SCALE`: the square root of a fixed-point
/// number, on the same grid.
pub fn isqrt_scaled(n: u128) -> (r: u128)
    requires
        n <= i128::MAX,
    ensures
        is_sqrt_floor(n * SCALE, r as int),
        r == sqrt_floor(n * SCALE),
{
    let root: u128 = isqrt(n);
    assert(root < 13_043_817_825_332_782_213) by {
        if root >= 13_043_817_825_332_782_213 {
            assert(root * root >= 13_043_817_825_332_782_213 * 13_043_817_825_332_782_213)
                by (nonlinear_arith)
                requires
                    root >= 13_043_817_825_332_782_213,
            ;
        }
    }
    let mut low: u128 = root * 1_000_000_000;
    let mut high: u128 = (root + 1) * 1_000_000_000;
    let ghost top: int = (root + 1) * 1_000_000_000;
    proof {
        assert(low * low == (root * root) * SCALE && top * top == ((root + 1) * (root + 1))
            * SCALE) by (nonlinear_arith)
            requires
                low == root * 1_000_000_000,
                top == (root + 1) * 1_000_000_000,
                SCALE == 1_000_000_000_000_000_000,
        ;
        assert((root * root) * SCALE <= n * SCALE && n * SCALE < ((root + 1) * (root + 1))
            * SCALE) by (nonlinear_arith)
            requires
                root * root <= n < (root + 1) * (root + 1),
                SCALE == 1_000_000_000_000_000_000,
        ;
        assert((root + 1) * (root + 1) <= 13_043_817_825_332_782_213
            * 13_043_817_825_332_782_213) by (nonlinear_arith)
            requires
                0 <= root < 13_043_817_825_332_782_213,
        ;
    }
    while high - low > 1
        invariant
            low < high <= top,
            low * low <= n * SCALE,
            n * SCALE < high * high,
            top * top == ((root + 1) * (root + 1)) * SCALE,
            (root + 1) * (root + 1) <= 13_043_817_825_332_782_213 * 13_043_817_825_332_782_213,
        decreases high - low,
    {
        let mid: u128 = low + (high - low) / 2;
        proof {
            assert(mid * mid < top * top) by (nonlinear_arith)
                requires
                    0 <= mid < top,
            ;
            assert((mid * mid) / (SCALE as int) <= (root + 1) * (root + 1)) by (nonlinear_arith)
                requires
                    mid * mid < ((root + 1) * (root + 1)) * SCALE,
                    SCALE == 1_000_000_000_000_000_000,
            ;
        }
        let (whole, rest) = mul_div_rem(mid, mid, 1_000_000_000_000_000_000);
        let below: bool = whole < n || (whole == n && rest == 0);
        proof {
            assert(below <==> mid * mid <= n * SCALE) by (nonlinear_arith)
                requires
                    whole * 1_000_000_000_000_000_000 + rest == mid * mid,
                    0 <= rest < 1_000_000_000_000_000_000,
                    SCALE == 1_000_000_000_000_000_000,
                    below == (whole < n || (whole == n && rest == 0)),
            ;
        }
        if below {
            low = mid;
        } else {
            high = mid;
        }
    }
    proof {
        lemma_sqrt_floor_unique(n * SCALE, low as int);
    }
    low
}

/// `n / d`, rounded to the nearest integer, a tie going away from zero.
pub fn nearest(n: i128, d: i128) -> (q: i128)
    requires
        d >= 2,
    ensures
        q == nearest_ratio(n as int, d as int),
{
    let size: u128 = magnitude_of(n);
    let floor: u128 = size / (d as u128);
    let rest: u128 = size % (d as u128);
    assert(floor <= size / 2) by (nonlinear_arith)
        requires
            floor == size / (d as u128),
            d >= 2,
    ;
    let count: u128 = if rest >= (d as u128) - rest {
        floor + 1
    } else {
        floor
    };
    if n >= 0 {
        count as i128
    } else {
        -(count as i128)
    }
}

/// A multiple of the divisor has itself over the divisor as its nearest quotient.
pub proof fn lemma_nearest_of_multiple(x: int, d: int)
    requires
        d > 0,
    ensures
        nearest_ratio(x * d, d) == x,
{
    let mx = magnitude(x);
    assert(magnitude(x * d) == mx * d && ((x * d >= 0) == (x >= 0))) by (nonlinear_arith)
        requires
            d > 0,
            mx == magnitude(x),
            magnitude(x * d) == if x * d >= 0 {
                x * d
            } else {
                -(x * d)
            },
            mx == if x >= 0 {
                x
            } else {
                -x
            },
    ;
    lemma_fundamental_div_mod_converse(mx * d, d, mx, 0);
}

/// A magnitude taken to a finer grid and back is the same: with `kept` the nearest
/// quotient of `x * per_unit` by `factor`, the nearest quotient of `kept * factor` by
/// `per_unit` is `x`, where the factor is below the unit.
pub proof fn lemma_unit_kept(x: int, per_unit: int, factor: int)
    requires
        0 <= x,
        0 < factor < per_unit,
    ensures
        nearest_div(nearest_div(x * per_unit, factor) * factor, per_unit) == x,
{
    let n = x * per_unit;
    assert(0 <= n) by (nonlinear_arith)
        requires
            n == x * per_unit,
            0 <= x,
            0 < per_unit,
    ;
    let kept = nearest_div(n, factor);
    vstd::arithmetic::div_mod::lemma_fundamental_div_mod(n, factor);
    let q = n / factor;
    let r = n % factor;
    assert(0 <= r < factor) by (nonlinear_arith)
        requires
            r == n % factor,
            0 < factor,
    ;
    // kept * factor is n plus an error of at most half a factor
    let error = kept * factor - n;
    assert(error == if 2 * r >= factor {
        factor - r
    } else {
        -r
    }) by (nonlinear_arith)
        requires
            error == kept * factor - n,
            n == factor * q + r,
            kept == q + if 2 * r >= factor {
                1int
            } else {
                0int
            },
    ;
    let back = kept * factor;
    if error >= 0 {
        assert(back == x * per_unit + error);
        lemma_fundamental_div_mod_converse(back, per_unit, x, error);
    } else {
        assert(x >= 1) by (nonlinear_arith)
            requires
                x * per_unit == n,
                n >= r,
                r > 0,
                0 <= x,
                0 < per_unit,
        ;
        assert(back == (x - 1) * per_unit + (per_unit + error)) by (nonlinear_arith)
            requires
                back == x * per_unit + error,
        ;
        lemma_fundamental_div_mod_converse(back, per_unit, x - 1, per_unit + error);
    }
}

/// `value` where it lies between the bounds, else the bound it has passed.
pub open spec fn clamp(value: int, low: int, high: int) -> int {
    if value < low {
        low
    } else if value > high {
        high
    } else {
        value
    }
}

/// `value` held between two bounds, given in either order.
pub fn clamp_between(value: i128, one: i128, other: i128) -> (held: i128)
    ensures
        held == clamp(
            value as int,
            if one <= other {
                one as int
            } else {
                other as int
            },
            if one <= other {
                other as int
            } else {
                one as int
            },
        ),
{
    let low: i128 = if one <= other {
        one
    } else {
        other
    };
    let high: i128 = if one <= other {
        other
    } else {
        one
    };
    if value < low {
        low
    } else if value > high {
        high
    } else {
        value
    }
}

/// Width of the grid that keeps `decimal` fractional digits, in steps of the grid.
pub open spec fn grid_step(decimal: int) -> int {
    if decimal <= 0 {
        1_000_000_000_000_000_000
    } else if decimal == 1 {
        100_000_000_000_000_000
    } else if decimal == 2 {
        10_000_000_000_000_000
    } else if decimal == 3 {
        1_000_000_000_000_000
    } else if decimal == 4 {
        100_000_000_000_000
    } else if decimal == 5 {
        10_000_000_000_000
    } else if decimal == 6 {
        1_000_000_000_000
    } else if decimal == 7 {
        100_000_000_000
    } else if decimal == 8 {
        10_000_000_000
    } else if decimal == 9 {
        1_000_000_000
    } else if decimal == 10 {
        100_000_000
    } else if decimal == 11 {
        10_000_000
    } else if decimal == 12 {
        1_000_000
    } else if decimal == 13 {
        100_000
    } else if decimal == 14 {
        10_000
    } else if decimal == 15 {
        1_000
    } else if decimal == 16 {
        100
    } else if decimal == 17 {
        10
    } else {
        1
    }
}

/// The width of the grid that keeps `decimal` fractional digits.
pub fn step_of(decimal: usize) -> (step: i128)
    ensures
        step == grid_step(decimal as int),
        1 <= step <= SCALE,
{
    if decimal == 0 {
        1_000_000_000_000_000_000
    } else if decimal == 1 {
        100_000_000_000_000_000
    } else if decimal == 2 {
        10_000_000_000_000_000
    } else if decimal == 3 {
        1_000_000_000_000_000
    } else if decimal == 4 {
        100_000_000_000_000
    } else if decimal == 5 {
        10_000_000_000_000
    } else if decimal == 6 {
        1_000_000_000_000
    } else if decimal == 7 {
        100_000_000_000
    } else if decimal == 8 {
        10_000_000_000
    } else if decimal == 9 {
        1_000_000_000
    } else if decimal == 10 {
        100_000_000
    } else if decimal == 11 {
        10_000_000
    } else if decimal == 12 {
        1_000_000
    } else if decimal == 13 {
        100_000
    } else if decimal == 14 {
        10_000
    } else if decimal == 15 {
        1_000
    } else if decimal == 16 {
        100
    } else if decimal == 17 {
        10
    } else {
        1
    }
}

/// `value` moved to the nearest multiple of `step`, a tie going away from zero.
pub open spec fn round_half_away(value: int, step: int) -> int {
    if value >= 0 {
        nearest_div(value, step) * step
    } else {
        -(nearest_div(-value, step) * step)
    }
}

/// `value` moved to the nearest multiple of `step`.
fn round_by(value: i128, step: i128) -> (rounded: i128)
    requires
        -LIMIT <= value <= LIMIT,
        1 <= step <= 10_000_000_000_000_000_000_000_000_000_000_000_000,
    ensures
        rounded == round_half_away(value as int, step as int),
{
    let size: i128 = if value >= 0 {
        value
    } else {
        -value
    };
    let floor: i128 = size / step;
    let rest: i128 = size % step;
    let count: i128 = if rest >= step - rest {
        floor + 1
    } else {
        floor
    };
    assert(floor * step <= size) by {
        vstd::arithmetic::div_mod::lemma_fundamental_div_mod(size as int, step as int);
        assert(step * floor == floor * step) by (nonlinear_arith);
    }
    assert(count * step <= size + step) by (nonlinear_arith)
        requires
            count <= floor + 1,
            floor * step <= size,
            0 <= floor,
            0 < step,
    ;
    assert(0 <= count * step) by (nonlinear_arith)
        requires
            0 <= count,
            0 < step,
    ;
    if value >= 0 {
        count * step
    } else {
        -(count * step)
    }
}

/// Rounds a fixed-point number to `decimal` fractional digits, a tie going away from zero.
/// With eighteen digits or more the number is returned as it is.
pub fn round_to(value: i128, decimal: usize) -> (rounded: i128)
    requires
        -LIMIT <= value <= LIMIT,
    ensures
        rounded == round_half_away(value as int, grid_step(decimal as int)),
{
    round_by(value, step_of(decimal))
}

/// Width of the grid that ends at the decimal place `decimal`: the place `-1` is that
/// of the tens, the place `-2` that of the hundreds. Below the place `-19` the width is
/// that of the place `-19`.
pub open spec fn place_step(decimal: int) -> int {
    if decimal >= 0 {
        grid_step(decimal)
    } else if decimal == -1 {
        10_000_000_000_000_000_000
    } else if decimal == -2 {
        100_000_000_000_000_000_000
    } else if decimal == -3 {
        1_000_000_000_000_000_000_000
    } else if decimal == -4 {
        10_000_000_000_000_000_000_000
    } else if decimal == -5 {
        100_000_000_000_000_000_000_000
    } else if decimal == -6 {
        1_000_000_000_000_000_000_000_000
    } else if decimal == -7 {
        10_000_000_000_000_000_000_000_000
    } else if decimal == -8 {
        100_000_000_000_000_000_000_000_000
    } else if decimal == -9 {
        1_000_000_000_000_000_000_000_000_000
    } else if decimal == -10 {
        10_000_000_000_000_000_000_000_000_000
    } else if decimal == -11 {
        100_000_000_000_000_000_000_000_000_000
    } else if decimal == -12 {
        1_000_000_000_000_000_000_000_000_000_000
    } else if decimal == -13 {
        10_000_000_000_000_000_000_000_000_000_000
    } else if decimal == -14 {
        100_000_000_000_000_000_000_000_000_000_000
    } else if decimal == -15 {
        1_000_000_000_000_000_000_000_000_000_000_000
    } else if decimal == -16 {
        10_000_000_000_000_000_000_000_000_000_000_000
    } else if decimal == -17 {
        100_000_000_000_000_000_000_000_000_000_000_000
    } else if decimal == -18 {
        1_000_000_000_000_000_000_000_000_000_000_000_000
    } else {
        10_000_000_000_000_000_000_000_000_000_000_000_000
    }
}

/// Rounds a fixed-point number to the decimal place `decimal`, which may lie before
/// the point, a tie going away from zero.
pub fn round_to_place(value: i128, decimal: i32) -> (rounded: i128)
    requires
        -LIMIT <= value <= LIMIT,
    ensures
        rounded == round_half_away(value as int, place_step(decimal as int)),
{
    let step: i128 = if decimal >= 0 {
        step_of(decimal as usize)
    } else if decimal == -1 {
        10_000_000_000_000_000_000
    } else if decimal == -2 {
        100_000_000_000_000_000_000
    } else if decimal == -3 {
        1_000_000_000_000_000_000_000
    } else if decimal == -4 {
        10_000_000_000_000_000_000_000
    } else if decimal == -5 {
        100_000_000_000_000_000_000_000
    } else if decimal == -6 {
        1_000_000_000_000_000_000_000_000
    } else if decimal == -7 {
        10_000_000_000_000_000_000_000_000
    } else if decimal == -8 {
        100_000_000_000_000_000_000_000_000
    } else if decimal == -9 {
        1_000_000_000_000_000_000_000_000_000
    } else if decimal == -10 {
        10_000_000_000_000_000_000_000_000_000
    } else if decimal == -11 {
        100_000_000_000_000_000_000_000_000_000
    } else if decimal == -12 {
        1_000_000_000_000_000_000_000_000_000_000
    } else if decimal == -13 {
        10_000_000_000_000_000_000_000_000_000_000
    } else if decimal == -14 {
        100_000_000_000_000_000_000_000_000_000_000
    } else if decimal == -15 {
        1_000_000_000_000_000_000_000_000_000_000_000
    } else if decimal == -16 {
        10_000_000_000_000_000_000_000_000_000_000_000
    } else if decimal == -17 {
        100_000_000_000_000_000_000_000_000_000_000_000
    } else if decimal == -18 {
        1_000_000_000_000_000_000_000_000_000_000_000_000
    } else {
        10_000_000_000_000_000_000_000_000_000_000_000_000
    };
    round_by(value, step)
}

} // verus!
