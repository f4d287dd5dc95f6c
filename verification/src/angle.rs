//! Headings in micro-radians: a fixed-point direction-to-angle conversion
//! with the quadrant behavior of `atan2`, normalization of angles into
//! `[0, 2*pi)`, and the shortest signed difference between two headings.

use crate::math::{
    atan_frac, iabs, lemma_div_bounds, ATAN_C, FP, HALF_PI, PI_FP, QUARTER_PI, TWO_PI,
};
use vstd::arithmetic::div_mod::{
    lemma_div_is_ordered, lemma_div_multiples_vanish, lemma_div_of0,
    lemma_div_pos_is_pos, lemma_mod_multiples_basic,
};
use vstd::prelude::*;

verus! {

/// Largest direction component the conversion accepts: the difference of two
/// in-world coordinates always fits it.
pub const DIR_MAX: i64 = 2_100_000_000;

/// Weight bound step of the arctangent range proof: with `d` below the
/// correction coefficient's share of the remaining interval, the weighted
/// product stays under a quarter turn.
proof fn lemma_atan_weight(a: int, d: int)
    by (nonlinear_arith)
    requires
        0 <= a <= 1_000_000,
        0 <= d,
        d * 1_000_000 <= 273_000 * (1_000_000 - a),
    ensures
        a * (785_398 + d) <= 785_398 * 1_000_000,
{
}

/// For a ratio `a` in `[0, FP]`, the arctangent approximation stays in
/// `[0, QUARTER_PI]`, and hits the endpoints exactly at `0` and `FP`.
pub proof fn lemma_atan_frac_range(a: int)
    requires
        0 <= a <= FP,
    ensures
        0 <= atan_frac(a) <= QUARTER_PI,
        atan_frac(0) == 0,
        atan_frac(FP as int) == QUARTER_PI,
{
    let c = 273_000int;
    let fp = FP as int;
    let qp = QUARTER_PI as int;
    let p = c * (fp - a);
    let d = p / fp;
    lemma_div_bounds(p, fp);
    lemma_atan_weight(a, d);
    let w = qp + d;
    assert(a * w >= 0) by (nonlinear_arith)
        requires
            a >= 0,
            w >= 0,
    ;
    lemma_div_pos_is_pos(a * w, fp);
    lemma_div_is_ordered(a * w, qp * fp, fp);
    assert(qp * fp == fp * qp);
    lemma_div_multiples_vanish(qp, fp);
    assert(atan_frac(0) == 0) by {
        lemma_div_of0(fp);
        assert(0 * (qp + (c * (fp - 0)) / fp) == 0);
    }
    assert(atan_frac(fp) == qp) by {
        lemma_div_of0(fp);
        assert(c * (fp - fp) == 0);
        let w0 = qp + 0int / fp;
        assert(w0 == qp);
        assert(fp * qp == fp * qp);
        lemma_div_multiples_vanish(qp, fp);
    }
}

/// The first-quadrant angle of the direction `(ax, az)` measured from the
/// `+z` axis, for non-negative components that are not both zero.
pub open spec fn atan2_octant(ax: int, az: int) -> int {
    if az >= ax {
        atan_frac((ax * FP) / az)
    } else {
        HALF_PI - atan_frac((az * FP) / ax)
    }
}

/// The first-quadrant angle lies in `[0, HALF_PI]`.
pub proof fn lemma_octant_range(ax: int, az: int)
    requires
        0 <= ax,
        0 <= az,
        ax + az > 0,
    ensures
        0 <= atan2_octant(ax, az) <= HALF_PI,
{
    if az >= ax {
        let ratio = (ax * FP) / az;
        lemma_div_pos_is_pos(ax * FP, az as int);
        lemma_div_is_ordered(ax * FP, az * FP, az as int);
        assert(az * FP == (az as int) * (FP as int));
        lemma_div_multiples_vanish(FP as int, az as int);
        assert(az * FP == az * (FP as int));
        assert(ratio <= FP);
        lemma_atan_frac_range(ratio);
    } else {
        let ratio = (az * FP) / ax;
        lemma_div_pos_is_pos(az * FP, ax as int);
        lemma_div_is_ordered(az * FP, ax * FP, ax as int);
        lemma_div_multiples_vanish(FP as int, ax as int);
        assert(ratio <= FP);
        lemma_atan_frac_range(ratio);
    }
}

/// The heading of the direction `(x, z)`, measured from the `+z` axis toward
/// the `+x` axis, in micro-radians: the fixed-point counterpart of
/// `atan2(x, z)`, with its quadrant conventions and its value `0` for the
/// zero direction.
pub open spec fn spec_atan2(x: int, z: int) -> int {
    if x == 0 && z == 0 {
        0
    } else {
        let q = if z >= 0 {
            atan2_octant(iabs(x), iabs(z))
        } else {
            PI_FP - atan2_octant(iabs(x), iabs(z))
        };
        if x >= 0 {
            q
        } else {
            -q
        }
    }
}

/// The heading of any direction lies in `[-PI_FP, PI_FP]`, and each quadrant
/// of the direction maps into its quadrant of headings.
pub proof fn lemma_atan2_quadrants(x: int, z: int)
    ensures
        -PI_FP <= spec_atan2(x, z) <= PI_FP,
        x >= 0 ==> spec_atan2(x, z) >= 0,
        x <= 0 && (x != 0 || z >= 0) ==> spec_atan2(x, z) <= 0,
        x > 0 && z > 0 ==> 0 <= spec_atan2(x, z) <= HALF_PI,
        x > 0 && z < 0 ==> HALF_PI <= spec_atan2(x, z) <= PI_FP,
        x < 0 && z > 0 ==> -HALF_PI <= spec_atan2(x, z) <= 0,
        x < 0 && z < 0 ==> -PI_FP <= spec_atan2(x, z) <= -HALF_PI,
{
    if x != 0 || z != 0 {
        lemma_octant_range(iabs(x), iabs(z));
        if x != 0 && z != 0 {
            if iabs(z) >= iabs(x) {
                let ratio = (iabs(x) * FP) / iabs(z);
                lemma_div_pos_is_pos(iabs(x) * FP, iabs(z));
                lemma_div_is_ordered(iabs(x) * FP, iabs(z) * FP, iabs(z));
                lemma_div_multiples_vanish(FP as int, iabs(z));
                lemma_atan_frac_range(ratio);
            } else {
                let ratio = (iabs(z) * FP) / iabs(x);
                lemma_div_pos_is_pos(iabs(z) * FP, iabs(x));
                lemma_div_is_ordered(iabs(z) * FP, iabs(x) * FP, iabs(x));
                lemma_div_multiples_vanish(FP as int, iabs(x));
                lemma_atan_frac_range(ratio);
            }
        }
    }
}

/// On the axes the conversion is exact: headings `0`, `HALF_PI`, `PI_FP` and
/// `-HALF_PI` for the four axis directions.
pub proof fn lemma_atan2_axes(x: int, z: int)
    ensures
        x == 0 && z > 0 ==> spec_atan2(x, z) == 0,
        x > 0 && z == 0 ==> spec_atan2(x, z) == HALF_PI,
        x == 0 && z < 0 ==> spec_atan2(x, z) == PI_FP,
        x < 0 && z == 0 ==> spec_atan2(x, z) == -HALF_PI,
{
    if x == 0 && z != 0 {
        lemma_atan_frac_range((0 * FP) / iabs(z));
        lemma_div_pos_is_pos(0, iabs(z));
        assert((0 * FP) / iabs(z) == 0) by {
            assert(0 * FP == 0);
            assert(0int / iabs(z) == 0) by (nonlinear_arith)
                requires
                    iabs(z) > 0,
            ;
        }
    }
    if x != 0 && z == 0 {
        lemma_atan_frac_range((0 * FP) / iabs(x));
        assert((0 * FP) / iabs(x) == 0) by {
            assert(0 * FP == 0);
            assert(0int / iabs(x) == 0) by (nonlinear_arith)
                requires
                    iabs(x) > 0,
            ;
        }
    }
}

/// Mirroring the direction across the `z` axis negates the heading, as long
/// as the direction does not point straight backward.
pub proof fn lemma_atan2_odd(x: int, z: int)
    requires
        x != 0,
    ensures
        spec_atan2(-x, z) == -spec_atan2(x, z),
{
    assert(iabs(-x) == iabs(x));
}

/// Compute the heading of the direction `(x, z)` in micro-radians.
pub fn atan2_fp(x: i64, z: i64) -> (r: i64)
    requires
        -DIR_MAX <= x <= DIR_MAX,
        -DIR_MAX <= z <= DIR_MAX,
    ensures
        r == spec_atan2(x as int, z as int),
        -PI_FP <= r <= PI_FP,
{
    proof {
        lemma_atan2_quadrants(x as int, z as int);
    }
    if x == 0 && z == 0 {
        return 0;
    }
    let ax: i64 = if x >= 0 {
        x
    } else {
        -x
    };
    let az: i64 = if z >= 0 {
        z
    } else {
        -z
    };
    let base: i64 = if az >= ax {
        proof {
            lemma_div_pos_is_pos(ax * FP, az as int);
            lemma_div_is_ordered(ax * FP, az * FP, az as int);
            lemma_div_multiples_vanish(FP as int, az as int);
            lemma_atan_frac_range((ax * FP) / (az as int));
        }
        atan_frac_fp((ax * FP) / az)
    } else {
        proof {
            lemma_div_pos_is_pos(az * FP, ax as int);
            lemma_div_is_ordered(az * FP, ax * FP, ax as int);
            lemma_div_multiples_vanish(FP as int, ax as int);
            lemma_atan_frac_range((az * FP) / (ax as int));
        }
        HALF_PI - atan_frac_fp((az * FP) / ax)
    };
    let q: i64 = if z >= 0 {
        base
    } else {
        PI_FP - base
    };
    if x >= 0 {
        q
    } else {
        -q
    }
}

/// Compute the arctangent approximation for a ratio in `[0, FP]`.
fn atan_frac_fp(a: i64) -> (r: i64)
    requires
        0 <= a <= FP,
    ensures
        r == atan_frac(a as int),
        0 <= r <= QUARTER_PI,
{
    proof {
        lemma_atan_frac_range(a as int);
    }
    let rest: i64 = (ATAN_C * (FP - a)) / FP;
    let weight: i64 = QUARTER_PI + rest;
    proof {
        lemma_div_bounds((ATAN_C as int) * (FP - a as int), FP as int);
        assert((a as int) * (weight as int) <= 1_100_000_000_000) by (nonlinear_arith)
            requires
                0 <= a <= 1_000_000,
                0 <= weight <= 1_100_000,
        ;
    }
    (a * weight) / FP
}

/// An angle folded from `[-PI_FP, PI_FP]` into the positive domain
/// `[0, TWO_PI)`: negative headings gain a full turn.
pub open spec fn spec_angle_to_positive_domain(angle: int) -> int {
    if angle >= 0 {
        angle
    } else {
        TWO_PI - iabs(angle)
    }
}

/// Fold a heading into the positive domain `[0, TWO_PI)`.
pub fn angle_to_positive_domain(angle: i64) -> (r: i64)
    requires
        -PI_FP <= angle <= PI_FP,
    ensures
        r == spec_angle_to_positive_domain(angle as int),
        0 <= r < TWO_PI,
{
    if angle >= 0 {
        angle
    } else {
        TWO_PI - (-angle)
    }
}

/// The signed difference that turns the heading `from` onto the heading
/// `to` along the shorter way around the circle.
pub open spec fn spec_shortest_delta(to: int, from: int) -> int {
    let raw = to - from;
    if raw > PI_FP {
        raw - TWO_PI
    } else if raw <= -PI_FP {
        raw + TWO_PI
    } else {
        raw
    }
}

/// Compute the shortest signed heading difference; the result differs from
/// the plain difference by a whole number of turns and lies in
/// `(-PI_FP, PI_FP]`.
pub fn shortest_delta(to: i64, from: i64) -> (r: i64)
    requires
        -PI_FP <= to <= PI_FP,
        -PI_FP <= from <= PI_FP,
    ensures
        r == spec_shortest_delta(to as int, from as int),
        -PI_FP < r <= PI_FP,
        (to - from - r) % (TWO_PI as int) == 0,
{
    let raw: i64 = to - from;
    proof {
        let rr = spec_shortest_delta(to as int, from as int);
        assert((to - from - rr) % (TWO_PI as int) == 0) by {
            lemma_mod_multiples_basic(0, TWO_PI as int);
            lemma_mod_multiples_basic(1, TWO_PI as int);
            lemma_mod_multiples_basic(-1, TWO_PI as int);
            if to - from - rr == 0 {
                assert(to - from - rr == 0 * (TWO_PI as int));
            } else if to - from - rr == TWO_PI {
                assert(to - from - rr == 1 * (TWO_PI as int));
            } else {
                assert(to - from - rr == -1 * (TWO_PI as int));
            }
        }
    }
    if raw > PI_FP {
        raw - TWO_PI
    } else if raw <= -PI_FP {
        raw + TWO_PI
    } else {
        raw
    }
}

/// An angle folded into `(-PI_FP, PI_FP]` by whole turns.
pub open spec fn spec_wrap_angle(a: int) -> int
    decreases 2 * iabs(a) + if a <= -(PI_FP as int) {
        1int
    } else {
        0int
    },
{
    if a > PI_FP {
        spec_wrap_angle(a - TWO_PI)
    } else if a <= -PI_FP {
        spec_wrap_angle(a + TWO_PI)
    } else {
        a
    }
}

/// Wrap an angle into `(-PI_FP, PI_FP]` by whole turns: the result is
/// congruent to the input modulo `TWO_PI`.
pub fn wrap_angle(a: i64) -> (r: i64)
    requires
        -1_000_000_000_000 <= a <= 1_000_000_000_000,
    ensures
        r == spec_wrap_angle(a as int),
        -PI_FP < r <= PI_FP,
        (a - r) % (TWO_PI as int) == 0,
{
    let mut r: i64 = a;
    proof {
        lemma_mod_multiples_basic(0, TWO_PI as int);
        assert(a - r == 0 * (TWO_PI as int));
    }
    while r > PI_FP
        invariant
            -1_000_000_000_000 <= r <= 1_000_000_000_000,
            (a - r) % (TWO_PI as int) == 0,
            spec_wrap_angle(r as int) == spec_wrap_angle(a as int),
        decreases r + TWO_PI,
    {
        proof {
            lemma_sub_turn_keeps_congruence(a as int, r as int);
        }
        r = r - TWO_PI;
    }
    while r <= -PI_FP
        invariant
            -1_000_000_000_000 <= r <= PI_FP,
            (a - r) % (TWO_PI as int) == 0,
            spec_wrap_angle(r as int) == spec_wrap_angle(a as int),
        decreases TWO_PI - r,
    {
        proof {
            lemma_add_turn_keeps_congruence(a as int, r as int);
        }
        r = r + TWO_PI;
    }
    r
}

/// Taking a full turn off an angle keeps its congruence class.
proof fn lemma_sub_turn_keeps_congruence(a: int, r: int)
    requires
        (a - r) % (TWO_PI as int) == 0,
    ensures
        (a - (r - TWO_PI)) % (TWO_PI as int) == 0,
{
    vstd::arithmetic::div_mod::lemma_mod_add_multiples_vanish(a - r, TWO_PI as int);
}

/// Adding a full turn to an angle keeps its congruence class.
proof fn lemma_add_turn_keeps_congruence(a: int, r: int)
    requires
        (a - r) % (TWO_PI as int) == 0,
    ensures
        (a - (r + TWO_PI)) % (TWO_PI as int) == 0,
{
    vstd::arithmetic::div_mod::lemma_mod_sub_multiples_vanish(a - r, TWO_PI as int);
}

} // verus!
