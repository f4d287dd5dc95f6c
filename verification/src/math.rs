//! Fixed-point scale constants and the small arithmetic kit the simulation
//! rests on: clamping, truncating scaled division, and integer square roots.

use vstd::arithmetic::div_mod::{
    lemma_fundamental_div_mod, lemma_mod_division_less_than_divisor,
};
use vstd::prelude::*;

verus! {

/// One world unit, one radian, or one second, expressed in the fixed-point
/// subunits used throughout the simulation.
pub const FP: i64 = 1_000_000;

/// A quarter of pi in micro-radians: the base angle constant; the other angle
/// constants are exact multiples of it, so their ratios are exact.
pub const QUARTER_PI: i64 = 785_398;

/// Half of pi in micro-radians.
pub const HALF_PI: i64 = 2 * QUARTER_PI;

/// Pi in micro-radians.
pub const PI_FP: i64 = 4 * QUARTER_PI;

/// Two pi (a full turn) in micro-radians.
pub const TWO_PI: i64 = 8 * QUARTER_PI;

/// Correction coefficient of the arctangent approximation, in
/// micro-radians: `atan(t)` for `t` in `[0, 1]` is close to
/// `QUARTER_PI * t + ATAN_C * t * (1 - t)`.
pub const ATAN_C: i64 = 273_000;

/// The arctangent approximation for a ratio `a` scaled by `FP`: the angle in
/// micro-radians whose tangent is close to `a / FP`, for `a` in `[0, FP]`.
pub open spec fn atan_frac(a: int) -> int {
    (a * (QUARTER_PI + (ATAN_C * (FP - a)) / (FP as int))) / (FP as int)
}

/// The absolute value of a mathematical integer.
pub open spec fn iabs(a: int) -> int {
    if a >= 0 {
        a
    } else {
        -a
    }
}

/// The value `v` pulled into the closed interval `[lo, hi]`.
pub open spec fn spec_clamp(v: int, lo: int, hi: int) -> int {
    if v < lo {
        lo
    } else if v > hi {
        hi
    } else {
        v
    }
}

/// Clamp `v` into `[lo, hi]`.
pub fn clamp_i64(v: i64, lo: i64, hi: i64) -> (r: i64)
    requires
        lo <= hi,
    ensures
        r == spec_clamp(v as int, lo as int, hi as int),
        lo <= r <= hi,
{
    if v < lo {
        lo
    } else if v > hi {
        hi
    } else {
        v
    }
}

/// Division of `a` by positive `d`, truncated toward zero, as Rust's `/`
/// computes it on signed integers.
pub open spec fn tdiv(a: int, d: int) -> int {
    if a >= 0 {
        a / d
    } else {
        -((-a) / d)
    }
}

/// The product `a * b` divided by `d`, truncated toward zero.
pub open spec fn mul_div(a: int, b: int, d: int) -> int {
    tdiv(a * b, d)
}

/// Truncating division `q = a / d` for non-negative operands leaves
/// `q * d <= a < (q + 1) * d`.
pub proof fn lemma_div_bounds(a: int, d: int)
    requires
        a >= 0,
        d > 0,
    ensures
        (a / d) * d <= a,
        a < (a / d + 1) * d,
        a / d >= 0,
{
    lemma_fundamental_div_mod(a, d);
    lemma_mod_division_less_than_divisor(a, d);
    assert((a / d) * d == d * (a / d)) by (nonlinear_arith);
    assert((a / d + 1) * d == d * (a / d) + d) by (nonlinear_arith);
    if a / d < 0 {
        assert(d * (a / d) <= -d) by (nonlinear_arith)
            requires
                d > 0,
                a / d <= -1,
        ;
    }
}

/// The truncating scaled division `mul_div(a, b, d)` keeps the sign of `a`,
/// and its magnitude is the floor of `|a| * b / d`.
pub proof fn lemma_mul_div_bounds(a: int, b: int, d: int)
    requires
        b >= 0,
        d > 0,
    ensures
        a >= 0 ==> 0 <= mul_div(a, b, d),
        a <= 0 ==> mul_div(a, b, d) <= 0,
        iabs(mul_div(a, b, d)) * d <= iabs(a) * b,
        iabs(a) * b < (iabs(mul_div(a, b, d)) + 1) * d,
{
    lemma_div_bounds(iabs(a * b), d);
    assert(iabs(a * b) == iabs(a) * b) by (nonlinear_arith)
        requires
            b >= 0,
    ;
    assert(a >= 0 ==> a * b >= 0) by (nonlinear_arith)
        requires
            b >= 0,
    ;
    assert(a <= 0 ==> a * b <= 0) by (nonlinear_arith)
        requires
            b >= 0,
    ;
}

/// Compute `a * b / d` truncated toward zero, where `b` and `d` are
/// non-negative and the product fits the machine word.
pub fn mul_div_trunc(a: i64, b: i64, d: i64) -> (r: i64)
    requires
        b >= 0,
        d > 0,
        -i64::MAX <= a,
        a * b <= i64::MAX,
        -i64::MAX <= a * b,
    ensures
        r == mul_div(a as int, b as int, d as int),
        a >= 0 ==> 0 <= r,
        a <= 0 ==> r <= 0,
        iabs(r as int) * d <= iabs(a as int) * b,
        iabs(a as int) * b < (iabs(r as int) + 1) * d,
{
    proof {
        lemma_mul_div_bounds(a as int, b as int, d as int);
        lemma_div_bounds(iabs((a as int) * (b as int)), d as int);
    }
    if a >= 0 {
        (a * b) / d
    } else {
        let neg: i64 = -a;
        proof {
            assert((neg as int) * (b as int) == -((a as int) * (b as int)))
                by (nonlinear_arith)
                requires
                    neg == -(a as int),
            ;
        }
        -((neg * b) / d)
    }
}

/// `r` is the integer square root of `n`, rounded up: the least `r` with
/// `n <= r * r`.
pub open spec fn is_sqrt_ceil(n: int, r: int) -> bool {
    &&& 0 <= r
    &&& n <= r * r
    &&& (r == 0 || (r - 1) * (r - 1) < n)
}

/// The integer square root of `n`, rounded up.
pub open spec fn sqrt_ceil(n: int) -> int {
    choose|r: int| is_sqrt_ceil(n, r)
}

/// Two integers that both satisfy the rounded-up square root
/// characterization of the same `n` are equal.
pub proof fn lemma_sqrt_ceil_unique(n: int, a: int, b: int)
    by (nonlinear_arith)
    requires
        is_sqrt_ceil(n, a),
        is_sqrt_ceil(n, b),
    ensures
        a == b,
{
}

/// Every non-negative integer has a rounded-up square root, so the chosen
/// witness in `sqrt_ceil` satisfies its characterization.
pub proof fn lemma_sqrt_ceil_exists(n: int)
    requires
        0 <= n,
    ensures
        is_sqrt_ceil(n, sqrt_ceil(n)),
    decreases n,
{
    if n == 0 {
        assert(is_sqrt_ceil(0, 0));
    } else {
        lemma_sqrt_ceil_exists(n - 1);
        let s = sqrt_ceil(n - 1);
        if n <= s * s {
            assert(is_sqrt_ceil(n, s));
        } else {
            assert(is_sqrt_ceil(n, s + 1)) by (nonlinear_arith)
                requires
                    is_sqrt_ceil(n - 1, s),
                    s * s < n,
                    n >= 1,
            ;
        }
    }
    assert(exists|r: int| is_sqrt_ceil(n, r));
}

/// A square is never negative, and squaring keeps the order of
/// non-negative integers.
pub proof fn lemma_square_facts(a: int, b: int)
    by (nonlinear_arith)
    ensures
        a * a >= 0,
        a * a == iabs(a) * iabs(a),
        0 <= a <= b ==> a * a <= b * b,
        0 <= a && 0 <= b && a * a <= b * b ==> a <= b,
{
}

/// Compute the integer square root of `n`, rounded up.
pub fn sqrt_ceil_u64(n: u64) -> (r: u64)
    ensures
        is_sqrt_ceil(n as int, r as int),
        r == sqrt_ceil(n as int),
        r <= 0x1_0000_0000,
{
    let mut lo: u64 = 0;
    let mut hi: u64 = 0x1_0000_0000;
    proof {
        assert((hi as int) * (hi as int) > n) by (nonlinear_arith)
            requires
                hi == 0x1_0000_0000u64,
                n <= u64::MAX,
        ;
    }
    while lo + 1 < hi
        invariant
            lo < hi <= 0x1_0000_0000,
            (lo as int) * (lo as int) <= n,
            (n as int) < (hi as int) * (hi as int),
        decreases hi - lo,
    {
        let mid: u64 = lo + (hi - lo) / 2;
        proof {
            assert((mid as int) * (mid as int) <= 0x1_0000_0000_0000_0000)
                by (nonlinear_arith)
                requires
                    0 <= mid <= 0x1_0000_0000,
            ;
        }
        if (mid as u128) * (mid as u128) <= n as u128 {
            lo = mid;
        } else {
            hi = mid;
        }
    }
    let floor: u64 = lo;
    proof {
        assert((floor as int) * (floor as int) <= u64::MAX) by (nonlinear_arith)
            requires
                0 <= floor < 0x1_0000_0000,
                (floor as int) * (floor as int) <= n,
                n <= u64::MAX,
        ;
    }
    let r: u64 = if floor * floor == n {
        proof {
            if floor > 0 {
                assert((floor as int - 1) * (floor as int - 1) < (floor as int) * (
                floor as int)) by (nonlinear_arith)
                    requires
                        floor >= 1,
                ;
            }
        }
        floor
    } else {
        proof {
            assert((floor as int) * (floor as int) < n);
        }
        floor + 1
    };
    proof {
        assert(is_sqrt_ceil(n as int, r as int));
        assert(is_sqrt_ceil(n as int, sqrt_ceil(n as int))) by {
            assert(exists|x: int| is_sqrt_ceil(n as int, x));
        }
        lemma_sqrt_ceil_unique(n as int, r as int, sqrt_ceil(n as int));
    }
    r
}

} // verus!
