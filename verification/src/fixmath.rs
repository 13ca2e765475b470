//! Fixed-point numeric helpers for arc tessellation.
//!
//! Angles are `i64` values counting billionths of a radian, and the sine and
//! cosine values are scaled by one billion, matching the crate-wide length
//! convention.  Every function computes a fully specified integer formula:
//! an argument-reduced Taylor polynomial whose terms are evaluated in
//! truncating fixed-point arithmetic.

use vstd::prelude::*;

use vstd::arithmetic::div_mod::{
    lemma_div_is_ordered,
    lemma_div_is_ordered_by_denominator,
    lemma_div_multiples_vanish,
    lemma_div_nonincreasing,
    lemma_div_pos_is_pos,
};
use vstd::arithmetic::mul::{
    lemma_mul_left_inequality,
    lemma_mul_nonnegative,
    lemma_mul_upper_bound,
};

verus! {

/// One radian (and the value 1.0 of a sine or cosine) in fixed-point units.
pub const ANGLE_ONE: i64 = 1_000_000_000;

/// The closest fixed-point value to the circle constant pi.
pub const PI_FIX: i64 = 3_141_592_654;

/// The closest fixed-point value to pi / 2.
pub const PI_2_FIX: i64 = 1_570_796_327;

/// The closest fixed-point value to pi / 4.
pub const PI_4_FIX: i64 = 785_398_163;

/// A full turn: twice `PI_FIX`, so that differences of two arctangents
/// (each in `[-PI_FIX, PI_FIX]`) never exceed one turn.
pub const TAU_FIX: i64 = 6_283_185_308;

/// The closest fixed-point value to tan(pi / 8), the split point of the
/// arctangent argument reduction.
pub const TAN_PI_8_FIX: i64 = 414_213_562;

/// Scaling two nonnegative fixed-point values never grows the larger one.
proof fn lemma_scale_le(a: int, b: int)
    requires
        0 <= a,
        0 <= b <= 1_000_000_000,
    ensures
        0 <= (a * b) / 1_000_000_000 <= a,
{
    lemma_mul_nonnegative(a, b);
    lemma_div_pos_is_pos(a * b, 1_000_000_000);
    if a > 0 {
        lemma_mul_left_inequality(a, b, 1_000_000_000);
        lemma_div_is_ordered(a * b, a * 1_000_000_000, 1_000_000_000);
        lemma_div_multiples_vanish(a, 1_000_000_000);
    } else {
        assert(a * b == 0);
    }
}

/// Dividing the smaller term by the larger odd constant keeps the Taylor
/// terms of an alternating series ordered.
proof fn lemma_term_chain(p_hi: int, p_lo: int, k_hi: int, k_lo: int)
    requires
        0 <= p_lo <= p_hi,
        1 <= k_hi <= k_lo,
    ensures
        0 <= p_lo / k_lo <= p_hi / k_hi,
{
    lemma_div_pos_is_pos(p_lo, k_lo);
    lemma_div_is_ordered(p_lo, p_hi, k_lo);
    lemma_div_is_ordered_by_denominator(p_hi, k_hi, k_lo);
}

// ------------------------------------------------------------------
// Integer square root
// ------------------------------------------------------------------

/// Whether `r` is the integer square root of `x`.
pub open spec fn is_int_sqrt(x: int, r: int) -> bool {
    0 <= r && r * r <= x && (x < (r + 1) * (r + 1))
}

/// The integer square root, as a function: the largest `r` with
/// `r * r <= x`.
pub open spec fn spec_isqrt(x: int) -> int {
    choose|r: int| is_int_sqrt(x, r)
}

/// The integer square root is unique, so any witness equals `spec_isqrt`.
pub proof fn lemma_isqrt_eq(x: int, rr: int)
    requires
        is_int_sqrt(x, rr),
    ensures
        spec_isqrt(x) == rr,
{
    assert(exists|r: int| is_int_sqrt(x, r)) by {
        assert(is_int_sqrt(x, rr));
    }
    let r = choose|r: int| is_int_sqrt(x, r);
    if r < rr {
        lemma_mul_upper_bound(r + 1, rr, r + 1, rr);
        assert(false);
    }
    if r > rr {
        lemma_mul_upper_bound(rr + 1, r, rr + 1, r);
        assert(false);
    }
}

/// The integer square root: the largest `r` with `r * r <= x`.
pub fn isqrt_u128(x: u128) -> (r: u64)
    ensures
        (r as int) * (r as int) <= x as int,
        (x as int) < (r as int + 1) * (r as int + 1),
        r as int == spec_isqrt(x as int),
{
    let mut lo: u64 = 0;
    let mut hi: u64 = u64::MAX;
    proof {
        assert((u64::MAX as int + 1) * (u64::MAX as int + 1) > u128::MAX as int)
            by (nonlinear_arith);
    }
    while lo < hi
        invariant
            lo <= hi,
            (lo as int) * (lo as int) <= x as int,
            (x as int) < (hi as int + 1) * (hi as int + 1),
        decreases hi - lo,
    {
        let mid = lo + (hi - lo) / 2 + 1;
        proof {
            assert(lo < mid <= hi);
            assert((mid as int) * (mid as int) <= (u64::MAX as int) * (u64::MAX as int))
                by (nonlinear_arith);
            assert((u64::MAX as int) * (u64::MAX as int) < u128::MAX as int) by (nonlinear_arith);
        }
        let sq: u128 = (mid as u128) * (mid as u128);
        if sq <= x {
            lo = mid;
        } else {
            hi = mid - 1;
        }
    }
    proof {
        lemma_isqrt_eq(x as int, lo as int);
    }
    lo
}

// ------------------------------------------------------------------
// Arctangent
// ------------------------------------------------------------------

/// The degree-13 Taylor polynomial of the arctangent at a fixed-point
/// argument in `[0, tan(pi/8)]`, with truncating term evaluation.
pub open spec fn spec_atan_frac(v: int) -> int {
    let v2 = (v * v) / 1_000_000_000;
    let p3 = (v * v2) / 1_000_000_000;
    let p5 = (p3 * v2) / 1_000_000_000;
    let p7 = (p5 * v2) / 1_000_000_000;
    let p9 = (p7 * v2) / 1_000_000_000;
    let p11 = (p9 * v2) / 1_000_000_000;
    let p13 = (p11 * v2) / 1_000_000_000;
    (v - p3 / 3) + (p5 / 5 - p7 / 7) + (p9 / 9 - p11 / 11) + p13 / 13
}

/// Arctangent of a small fixed-point ratio by its Taylor polynomial.
pub fn atan_frac(v: u64) -> (r: u64)
    requires
        v <= 415_000_000,
    ensures
        r as int == spec_atan_frac(v as int),
        r <= v,
{
    proof {
        lemma_mul_upper_bound(v as int, 415_000_000, v as int, 415_000_000);
        lemma_scale_le(v as int, v as int);
    }
    let v2: u64 = v * v / 1_000_000_000;
    proof {
        lemma_mul_upper_bound(v as int, 415_000_000, v2 as int, 415_000_000);
        lemma_scale_le(v as int, v2 as int);
    }
    let p3: u64 = v * v2 / 1_000_000_000;
    proof {
        lemma_mul_upper_bound(p3 as int, 415_000_000, v2 as int, 415_000_000);
        lemma_scale_le(p3 as int, v2 as int);
    }
    let p5: u64 = p3 * v2 / 1_000_000_000;
    proof {
        lemma_mul_upper_bound(p5 as int, 415_000_000, v2 as int, 415_000_000);
        lemma_scale_le(p5 as int, v2 as int);
    }
    let p7: u64 = p5 * v2 / 1_000_000_000;
    proof {
        lemma_mul_upper_bound(p7 as int, 415_000_000, v2 as int, 415_000_000);
        lemma_scale_le(p7 as int, v2 as int);
    }
    let p9: u64 = p7 * v2 / 1_000_000_000;
    proof {
        lemma_mul_upper_bound(p9 as int, 415_000_000, v2 as int, 415_000_000);
        lemma_scale_le(p9 as int, v2 as int);
    }
    let p11: u64 = p9 * v2 / 1_000_000_000;
    proof {
        lemma_mul_upper_bound(p11 as int, 415_000_000, v2 as int, 415_000_000);
        lemma_scale_le(p11 as int, v2 as int);
    }
    let p13: u64 = p11 * v2 / 1_000_000_000;
    proof {
        lemma_term_chain(v as int, p3 as int, 1, 3);
        lemma_term_chain(p3 as int, p5 as int, 3, 5);
        lemma_term_chain(p5 as int, p7 as int, 5, 7);
        lemma_term_chain(p7 as int, p9 as int, 7, 9);
        lemma_term_chain(p9 as int, p11 as int, 9, 11);
        lemma_term_chain(p11 as int, p13 as int, 11, 13);
        lemma_div_nonincreasing(p3 as int, 3);
    }
    let t3 = p3 / 3;
    let t5 = p5 / 5;
    let t7 = p7 / 7;
    let t9 = p9 / 9;
    let t11 = p11 / 11;
    let t13 = p13 / 13;
    (v - t3) + (t5 - t7) + (t9 - t11) + t13
}

/// Arctangent of a fixed-point ratio in `[0, 1]`: ratios above tan(pi/8)
/// are reduced through `atan(t) = pi/4 - atan((1 - t) / (1 + t))`.
pub open spec fn spec_atan_unit(t: int) -> int {
    if t <= TAN_PI_8_FIX {
        spec_atan_frac(t)
    } else {
        PI_4_FIX - spec_atan_frac(
            ((1_000_000_000 - t) * 1_000_000_000) / (1_000_000_000 + t),
        )
    }
}

/// Arctangent of a ratio in `[0, 1]`, in fixed-point radians `[0, pi/4]`.
pub fn atan_unit(t: u64) -> (r: u64)
    requires
        t <= 1_000_000_000,
    ensures
        r as int == spec_atan_unit(t as int),
        r <= 800_000_000,
{
    if t <= 414_213_562 {
        atan_frac(t)
    } else {
        let num: u64 = (1_000_000_000 - t) * 1_000_000_000;
        let den: u64 = 1_000_000_000 + t;
        let v: u64 = num / den;
        proof {
            lemma_div_is_ordered(num as int, 585_786_437_000_000_000, den as int);
            lemma_div_is_ordered_by_denominator(585_786_437_000_000_000, 1_414_213_563, den as int);
            assert(585_786_437_000_000_000int / 1_414_213_563int <= 415_000_000);
            lemma_div_pos_is_pos(num as int, den as int);
        }
        let a = atan_frac(v);
        785_398_163 - a
    }
}

/// Four-quadrant arctangent in fixed-point radians `(-pi, pi]`, computed
/// from the octant-reduced unit arctangent.
pub open spec fn spec_atan2(y: int, x: int) -> int {
    let ax = if x < 0 {
        -x
    } else {
        x
    };
    let ay = if y < 0 {
        -y
    } else {
        y
    };
    if ax == 0 && ay == 0 {
        0
    } else {
        let base = if ax >= ay {
            spec_atan_unit((ay * 1_000_000_000) / ax)
        } else {
            PI_2_FIX - spec_atan_unit((ax * 1_000_000_000) / ay)
        };
        if x >= 0 && y >= 0 {
            base
        } else if x < 0 && y >= 0 {
            PI_FIX - base
        } else if x >= 0 {
            -base
        } else {
            base - PI_FIX
        }
    }
}

/// The angle of the vector `(x, y)`, like the floating-point `atan2`:
/// in `(-pi, pi]` fixed-point radians, and `0` for the zero vector.
pub fn atan2_fix(y: i64, x: i64) -> (r: i64)
    requires
        -4_000_000_000_000_000 <= x <= 4_000_000_000_000_000,
        -4_000_000_000_000_000 <= y <= 4_000_000_000_000_000,
    ensures
        r as int == spec_atan2(y as int, x as int),
        -PI_FIX <= r <= PI_FIX,
{
    let ax: u64 = if x < 0 {
        (-x) as u64
    } else {
        x as u64
    };
    let ay: u64 = if y < 0 {
        (-y) as u64
    } else {
        y as u64
    };
    if ax == 0 && ay == 0 {
        return 0;
    }
    let base: i64 = if ax >= ay {
        proof {
            lemma_mul_upper_bound(ay as int, 4_000_000_000_000_000, 1_000_000_000, 1_000_000_000);
            lemma_mul_left_inequality(1_000_000_000, ay as int, ax as int);
            lemma_div_is_ordered(
                ay as int * 1_000_000_000,
                ax as int * 1_000_000_000,
                ax as int,
            );
            lemma_div_multiples_vanish(1_000_000_000, ax as int);
            lemma_mul_nonnegative(ay as int, 1_000_000_000);
            lemma_div_pos_is_pos(ay as int * 1_000_000_000, ax as int);
        }
        let t: u64 = ((ay as u128 * 1_000_000_000) / (ax as u128)) as u64;
        atan_unit(t) as i64
    } else {
        proof {
            lemma_mul_upper_bound(ax as int, 4_000_000_000_000_000, 1_000_000_000, 1_000_000_000);
            lemma_mul_left_inequality(1_000_000_000, ax as int, ay as int);
            lemma_div_is_ordered(
                ax as int * 1_000_000_000,
                ay as int * 1_000_000_000,
                ay as int,
            );
            lemma_div_multiples_vanish(1_000_000_000, ay as int);
            lemma_mul_nonnegative(ax as int, 1_000_000_000);
            lemma_div_pos_is_pos(ax as int * 1_000_000_000, ay as int);
        }
        let t: u64 = ((ax as u128 * 1_000_000_000) / (ay as u128)) as u64;
        1_570_796_327 - (atan_unit(t) as i64)
    };
    if x >= 0 && y >= 0 {
        base
    } else if x < 0 && y >= 0 {
        PI_FIX - base
    } else if x >= 0 {
        -base
    } else {
        base - PI_FIX
    }
}

// ------------------------------------------------------------------
// Sine and cosine
// ------------------------------------------------------------------

/// The angle shifted by whole turns into `[0, 2 pi)`.
pub open spec fn spec_norm_angle(a: int) -> int
    decreases
            (if a < 0 {
                TAU_FIX - a
            } else {
                a
            }),
{
    if a < 0 {
        spec_norm_angle(a + TAU_FIX)
    } else if a >= TAU_FIX {
        spec_norm_angle(a - TAU_FIX)
    } else {
        a
    }
}

/// The degree-9 Taylor polynomial of the sine at a fixed-point angle in
/// `[0, pi/4]`, with truncating term evaluation.
pub open spec fn spec_sin_core(x: int) -> int {
    let x2 = (x * x) / 1_000_000_000;
    let p3 = (x * x2) / 1_000_000_000;
    let p5 = (p3 * x2) / 1_000_000_000;
    let p7 = (p5 * x2) / 1_000_000_000;
    let p9 = (p7 * x2) / 1_000_000_000;
    (x - p3 / 6) + (p5 / 120 - p7 / 5040) + p9 / 362880
}

/// The degree-8 Taylor polynomial of the cosine at a fixed-point angle in
/// `[0, pi/4]`, with truncating term evaluation.
pub open spec fn spec_cos_core(x: int) -> int {
    let x2 = (x * x) / 1_000_000_000;
    let p4 = (x2 * x2) / 1_000_000_000;
    let p6 = (p4 * x2) / 1_000_000_000;
    let p8 = (p6 * x2) / 1_000_000_000;
    (1_000_000_000 - x2 / 2) + (p4 / 24 - p6 / 720) + p8 / 40320
}

/// Sine on a first-quadrant angle, by the sine polynomial below pi/4 and
/// the cosine polynomial of the complement above it.
pub open spec fn spec_sin_q(x: int) -> int {
    if x <= PI_4_FIX {
        spec_sin_core(x)
    } else {
        spec_cos_core(PI_2_FIX - x)
    }
}

/// Sine of any fixed-point angle: the angle is shifted into `[0, 2 pi)`
/// and folded onto the first quadrant with the usual symmetries.
pub open spec fn spec_sin(a: int) -> int {
    let ang = spec_norm_angle(a);
    if ang <= PI_2_FIX {
        spec_sin_q(ang)
    } else if ang <= PI_FIX {
        spec_sin_q(PI_FIX - ang)
    } else if ang <= PI_FIX + PI_2_FIX {
        -spec_sin_q(ang - PI_FIX)
    } else {
        -spec_sin_q(TAU_FIX - ang)
    }
}

/// Cosine as the shifted sine.
pub open spec fn spec_cos(a: int) -> int {
    spec_sin(a + PI_2_FIX)
}

fn sin_core(x: u64) -> (r: u64)
    requires
        x <= 785_398_163,
    ensures
        r as int == spec_sin_core(x as int),
        r <= 800_000_000,
{
    proof {
        lemma_mul_upper_bound(x as int, 785_398_163, x as int, 785_398_163);
        lemma_scale_le(x as int, x as int);
    }
    let x2: u64 = x * x / 1_000_000_000;
    proof {
        assert(x2 <= 616_850_276) by {
            lemma_div_is_ordered(x as int * x as int, 616_850_276_516_534_569, 1_000_000_000);
        }
        lemma_mul_upper_bound(x as int, 785_398_163, x2 as int, 616_850_276);
        lemma_scale_le(x as int, x2 as int);
    }
    let p3: u64 = x * x2 / 1_000_000_000;
    proof {
        lemma_mul_upper_bound(p3 as int, 785_398_163, x2 as int, 616_850_276);
        lemma_scale_le(p3 as int, x2 as int);
    }
    let p5: u64 = p3 * x2 / 1_000_000_000;
    proof {
        lemma_mul_upper_bound(p5 as int, 785_398_163, x2 as int, 616_850_276);
        lemma_scale_le(p5 as int, x2 as int);
    }
    let p7: u64 = p5 * x2 / 1_000_000_000;
    proof {
        lemma_mul_upper_bound(p7 as int, 785_398_163, x2 as int, 616_850_276);
        lemma_scale_le(p7 as int, x2 as int);
    }
    let p9: u64 = p7 * x2 / 1_000_000_000;
    proof {
        lemma_term_chain(x as int, p3 as int, 1, 6);
        lemma_term_chain(p3 as int, p5 as int, 6, 120);
        lemma_term_chain(p5 as int, p7 as int, 120, 5040);
        lemma_term_chain(p7 as int, p9 as int, 5040, 362880);
        lemma_div_nonincreasing(p3 as int, 6);
    }
    (x - p3 / 6) + (p5 / 120 - p7 / 5040) + p9 / 362880
}

fn cos_core(x: u64) -> (r: u64)
    requires
        x <= 785_398_163,
    ensures
        r as int == spec_cos_core(x as int),
        r <= 1_100_000_000,
{
    proof {
        lemma_mul_upper_bound(x as int, 785_398_163, x as int, 785_398_163);
        lemma_scale_le(x as int, x as int);
    }
    let x2: u64 = x * x / 1_000_000_000;
    proof {
        assert(x2 <= 616_850_276) by {
            lemma_div_is_ordered(x as int * x as int, 616_850_276_516_534_569, 1_000_000_000);
        }
        lemma_mul_upper_bound(x2 as int, 616_850_276, x2 as int, 616_850_276);
        lemma_scale_le(x2 as int, x2 as int);
    }
    let p4: u64 = x2 * x2 / 1_000_000_000;
    proof {
        lemma_mul_upper_bound(p4 as int, 616_850_276, x2 as int, 616_850_276);
        lemma_scale_le(p4 as int, x2 as int);
    }
    let p6: u64 = p4 * x2 / 1_000_000_000;
    proof {
        lemma_mul_upper_bound(p6 as int, 616_850_276, x2 as int, 616_850_276);
        lemma_scale_le(p6 as int, x2 as int);
    }
    let p8: u64 = p6 * x2 / 1_000_000_000;
    proof {
        lemma_term_chain(p4 as int, p6 as int, 24, 720);
        lemma_term_chain(p6 as int, p8 as int, 720, 40320);
        lemma_div_nonincreasing(p4 as int, 24);
        lemma_div_is_ordered(x2 as int, 1_000_000_000, 2);
    }
    (1_000_000_000 - x2 / 2) + (p4 / 24 - p6 / 720) + p8 / 40320
}

fn sin_q(x: u64) -> (r: u64)
    requires
        x <= 1_570_796_327,
    ensures
        r as int == spec_sin_q(x as int),
        r <= 1_100_000_000,
{
    if x <= 785_398_163 {
        sin_core(x)
    } else {
        cos_core(1_570_796_327 - x)
    }
}

/// Sine of a fixed-point angle.
pub fn sin_fix(a: i64) -> (r: i64)
    requires
        -20_000_000_000 <= a <= 20_000_000_000,
    ensures
        r as int == spec_sin(a as int),
        -1_100_000_000 <= r <= 1_100_000_000,
{
    let mut ang: i64 = a;
    while ang < 0
        invariant
            -20_000_000_000 <= ang <= 20_000_000_000,
            spec_norm_angle(ang as int) == spec_norm_angle(a as int),
        decreases TAU_FIX - ang,
    {
        ang = ang + TAU_FIX;
    }
    while ang >= TAU_FIX
        invariant
            0 <= ang <= 20_000_000_000,
            spec_norm_angle(ang as int) == spec_norm_angle(a as int),
        decreases ang,
    {
        ang = ang - TAU_FIX;
    }
    proof {
        assert(spec_norm_angle(ang as int) == ang as int);
    }
    if ang <= PI_2_FIX {
        sin_q(ang as u64) as i64
    } else if ang <= PI_FIX {
        sin_q((PI_FIX - ang) as u64) as i64
    } else if ang <= PI_FIX + PI_2_FIX {
        -(sin_q((ang - PI_FIX) as u64) as i64)
    } else {
        -(sin_q((TAU_FIX - ang) as u64) as i64)
    }
}

/// Cosine of a fixed-point angle, as the sine shifted by a quarter turn.
pub fn cos_fix(a: i64) -> (r: i64)
    requires
        -15_000_000_000 <= a <= 15_000_000_000,
    ensures
        r as int == spec_cos(a as int),
        -1_100_000_000 <= r <= 1_100_000_000,
{
    sin_fix(a + PI_2_FIX)
}

} // verus!
