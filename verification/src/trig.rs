//! Trigonometry on microdegree angles, in fixed point.
//!
//! `sin_cos_udeg` reduces an angle to the first octant exactly (integer
//! quadrant arithmetic) and evaluates a truncated Taylor polynomial there;
//! `atan2_udeg` reduces to the first octant through the complement and
//! half-angle identities; `asin_fp` goes through `atan2` and an integer
//! square root. Every function's result equals its specification mirror,
//! so the whole engine is a function of its arguments.

use vstd::prelude::*;

use crate::fixed::{FP, floor_div, floor_mod, mul_fp, isqrt};
use crate::fixed::{spec_mul_fp, spec_isqrt, lemma_sq_le};

verus! {

/// Pi scaled by `FP`.
pub const PI_FP: i128 = 3_141_592_653_589_793;

/// tan(22.5 degrees) scaled by `FP`: the octant-split threshold of `atan`.
pub const TAN_EIGHTH_FP: i128 = 414_213_562_373_095;

/// A full turn in microdegrees.
pub const TURN_UDEG: i128 = 360_000_000;

/// Largest magnitude `atan2_udeg` accepts for either argument.
pub const ATAN2_LIM: i128 = 1_000_000_000_000_000_000_000;

/// Taylor polynomial for sin on [0, 45] degrees, Horner form with
/// non-negative factors; argument in microdegrees, result scaled by `FP`.
pub open spec fn spec_sin_poly(a: int) -> int {
    let x = (a * PI_FP) / 180_000_000;
    let x2 = spec_mul_fp(x, x);
    let e4 = FP - x2 / 72;
    let e3 = FP - spec_mul_fp(x2, e4) / 42;
    let e2 = FP - spec_mul_fp(x2, e3) / 20;
    let e1 = FP - spec_mul_fp(x2, e2) / 6;
    spec_mul_fp(x, e1)
}

/// Taylor polynomial for cos on [0, 45] degrees.
pub open spec fn spec_cos_poly(a: int) -> int {
    let x = (a * PI_FP) / 180_000_000;
    let x2 = spec_mul_fp(x, x);
    let e5 = FP - x2 / 90;
    let e4 = FP - spec_mul_fp(x2, e5) / 56;
    let e3 = FP - spec_mul_fp(x2, e4) / 30;
    let e2 = FP - spec_mul_fp(x2, e3) / 12;
    FP - spec_mul_fp(x2, e2) / 2
}

pub fn sin_poly(a: i64) -> (r: i128)
    requires
        0 <= a <= 45_000_000,
    ensures
        r == spec_sin_poly(a as int),
        0 <= r <= 790_000_000_000_000,
        a == 45_000_000 ==> r >= 690_000_000_000_000,
{
    let x = floor_div((a as i128) * PI_FP, 180_000_000);
    proof {
        vstd::arithmetic::div_mod::lemma_div_is_ordered(0, (a as i128) * PI_FP as int, 180_000_000);
        vstd::arithmetic::div_mod::lemma_div_is_ordered(
            (a as i128) * PI_FP as int,
            45_000_000 * PI_FP as int,
            180_000_000,
        );
        assert((45_000_000 * (PI_FP as int)) / 180_000_000 == 785_398_163_397_448);
    }
    let x2 = mul_fp(x, x);
    let e4 = FP - floor_div(x2, 72);
    proof {
        vstd::arithmetic::div_mod::lemma_div_is_ordered(0, x2 as int, 72);
        vstd::arithmetic::div_mod::lemma_div_is_ordered(x2 as int, FP as int, 72);
    }
    let e3 = FP - floor_div(mul_fp(x2, e4), 42);
    proof {
        vstd::arithmetic::div_mod::lemma_div_is_ordered(0, spec_mul_fp(x2 as int, e4 as int), 42);
        vstd::arithmetic::div_mod::lemma_div_is_ordered(
            spec_mul_fp(x2 as int, e4 as int),
            FP as int,
            42,
        );
    }
    let e2 = FP - floor_div(mul_fp(x2, e3), 20);
    proof {
        vstd::arithmetic::div_mod::lemma_div_is_ordered(0, spec_mul_fp(x2 as int, e3 as int), 20);
        vstd::arithmetic::div_mod::lemma_div_is_ordered(
            spec_mul_fp(x2 as int, e3 as int),
            FP as int,
            20,
        );
    }
    let e1 = FP - floor_div(mul_fp(x2, e2), 6);
    proof {
        vstd::arithmetic::div_mod::lemma_div_is_ordered(0, spec_mul_fp(x2 as int, e2 as int), 6);
        vstd::arithmetic::div_mod::lemma_div_is_ordered(
            spec_mul_fp(x2 as int, e2 as int),
            FP as int,
            6,
        );
    }
    let r = mul_fp(x, e1);
    proof {
        if a == 45_000_000 {
            assert(r == 707_106_782_936_867);
        }
    }
    r
}

pub fn cos_poly(a: i64) -> (r: i128)
    requires
        0 <= a <= 45_000_000,
    ensures
        r == spec_cos_poly(a as int),
        690_000_000_000_000 <= r <= FP,
{
    let x = floor_div((a as i128) * PI_FP, 180_000_000);
    proof {
        vstd::arithmetic::div_mod::lemma_div_is_ordered(0, (a as i128) * PI_FP as int, 180_000_000);
        vstd::arithmetic::div_mod::lemma_div_is_ordered(
            (a as i128) * PI_FP as int,
            45_000_000 * PI_FP as int,
            180_000_000,
        );
        assert((45_000_000 * (PI_FP as int)) / 180_000_000 == 785_398_163_397_448);
    }
    let x2 = mul_fp(x, x);
    proof {
        assert((x as int) * (x as int) <= 785_398_163_397_448 * 785_398_163_397_448)
            by (nonlinear_arith)
            requires
                0 <= x <= 785_398_163_397_448,
        ;
        vstd::arithmetic::div_mod::lemma_div_is_ordered(
            (x as int) * (x as int),
            785_398_163_397_448int * 785_398_163_397_448int,
            FP as int,
        );
        assert((785_398_163_397_448int * 785_398_163_397_448int) / (FP as int) <= 616_850_275_068_085);
    }
    let e5 = FP - floor_div(x2, 90);
    proof {
        vstd::arithmetic::div_mod::lemma_div_is_ordered(0, x2 as int, 90);
        vstd::arithmetic::div_mod::lemma_div_is_ordered(x2 as int, FP as int, 90);
    }
    let e4 = FP - floor_div(mul_fp(x2, e5), 56);
    proof {
        vstd::arithmetic::div_mod::lemma_div_is_ordered(0, spec_mul_fp(x2 as int, e5 as int), 56);
        vstd::arithmetic::div_mod::lemma_div_is_ordered(
            spec_mul_fp(x2 as int, e5 as int),
            FP as int,
            56,
        );
    }
    let e3 = FP - floor_div(mul_fp(x2, e4), 30);
    proof {
        vstd::arithmetic::div_mod::lemma_div_is_ordered(0, spec_mul_fp(x2 as int, e4 as int), 30);
        vstd::arithmetic::div_mod::lemma_div_is_ordered(
            spec_mul_fp(x2 as int, e4 as int),
            FP as int,
            30,
        );
    }
    let e2 = FP - floor_div(mul_fp(x2, e3), 12);
    proof {
        vstd::arithmetic::div_mod::lemma_div_is_ordered(0, spec_mul_fp(x2 as int, e3 as int), 12);
        vstd::arithmetic::div_mod::lemma_div_is_ordered(
            spec_mul_fp(x2 as int, e3 as int),
            FP as int,
            12,
        );
    }
    let m2 = mul_fp(x2, e2);
    let h = floor_div(m2, 2);
    proof {
        vstd::arithmetic::div_mod::lemma_div_is_ordered(0, m2 as int, 2);
        vstd::arithmetic::div_mod::lemma_div_is_ordered(m2 as int, 616_850_275_068_085, 2);
    }
    FP - h
}

/// sin on a quarter turn, [0, 90] degrees, by reflection at 45 degrees.
pub open spec fn spec_half_sin(rem: int) -> int {
    if rem <= 45_000_000 {
        spec_sin_poly(rem)
    } else {
        spec_cos_poly(90_000_000 - rem)
    }
}

/// cos on a quarter turn, [0, 90] degrees.
pub open spec fn spec_half_cos(rem: int) -> int {
    if rem <= 45_000_000 {
        spec_cos_poly(rem)
    } else {
        spec_sin_poly(90_000_000 - rem)
    }
}

/// Quadrant reduction of an arbitrary microdegree angle.
pub open spec fn spec_sin_cos(a: int) -> (int, int) {
    let r = a % (TURN_UDEG as int);
    let q = r / 90_000_000;
    let rem = r % 90_000_000;
    if q == 0 {
        (spec_half_sin(rem), spec_half_cos(rem))
    } else if q == 1 {
        (spec_half_cos(rem), -spec_half_sin(rem))
    } else if q == 2 {
        (-spec_half_sin(rem), -spec_half_cos(rem))
    } else {
        (-spec_half_cos(rem), spec_half_sin(rem))
    }
}

pub open spec fn spec_sin_fp(a: int) -> int {
    spec_sin_cos(a).0
}

pub open spec fn spec_cos_fp(a: int) -> int {
    spec_sin_cos(a).1
}

/// Sine and cosine of a microdegree angle, each scaled by `FP`.
///
/// The window clauses at the end bound the cosine away from zero on
/// [-45, 45] degrees and the sine away from zero beyond 45 degrees;
/// the geodetic height computation divides by them.
pub fn sin_cos_udeg(a: i64) -> (r: (i128, i128))
    ensures
        r.0 == spec_sin_fp(a as int),
        r.1 == spec_cos_fp(a as int),
        -FP <= r.0 <= FP,
        -FP <= r.1 <= FP,
        -45_000_000 <= a <= 45_000_000 ==> r.1 >= 690_000_000_000_000,
        45_000_000 < a <= 90_000_000 ==> r.0 >= 690_000_000_000_000,
        -90_000_000 <= a < -45_000_000 ==> r.0 <= -690_000_000_000_000,
{
    let red = floor_mod(a as i128, TURN_UDEG);
    proof {
        if 0 <= a < 360_000_000 {
            vstd::arithmetic::div_mod::lemma_small_mod(a as nat, TURN_UDEG as nat);
        }
        if -360_000_000 <= a < 0 {
            vstd::arithmetic::div_mod::lemma_mod_add_multiples_vanish(a as int, TURN_UDEG as int);
            vstd::arithmetic::div_mod::lemma_small_mod(
                (a + 360_000_000) as nat,
                TURN_UDEG as nat,
            );
            assert(red == a + 360_000_000);
        }
    }
    let q = red / 90_000_000;
    let rem128 = red % 90_000_000;
    assert(q == red as int / 90_000_000);
    assert(rem128 == red as int % 90_000_000);
    proof {
        vstd::arithmetic::div_mod::lemma_fundamental_div_mod(red as int, 90_000_000);
        vstd::arithmetic::div_mod::lemma_mod_bound(red as int, 90_000_000);
        assert(red as int == 90_000_000 * (q as int) + rem128);
        assert(0 <= rem128 < 90_000_000);
    }
    let rem: i64 = rem128 as i64;
    let (hs, hc) = if rem <= 45_000_000 {
        let s = sin_poly(rem);
        let c = cos_poly(rem);
        (s, c)
    } else {
        let s = cos_poly(90_000_000 - rem);
        let c = sin_poly(90_000_000 - rem);
        (s, c)
    };
    assert(hs == spec_half_sin(rem as int));
    assert(hc == spec_half_cos(rem as int));
    if q == 0 {
        (hs, hc)
    } else if q == 1 {
        (hc, -hs)
    } else if q == 2 {
        (-hs, -hc)
    } else {
        assert(q == 3);
        (-hc, hs)
    }
}

/// Taylor polynomial for atan on [0, tan 22.5 degrees], paired so that
/// every factor stays non-negative; result in radians scaled by `FP`.
pub open spec fn spec_atan_series(t: int) -> int {
    let t2 = spec_mul_fp(t, t);
    let t4 = spec_mul_fp(t2, t2);
    let t8 = spec_mul_fp(t4, t4);
    let t12 = spec_mul_fp(t8, t4);
    let g0 = FP - t2 / 3;
    let g1 = FP / 5 - t2 / 7;
    let g2 = FP / 9 - t2 / 11;
    let g3 = FP / 13 - t2 / 15;
    let sf = g0 + spec_mul_fp(t4, g1) + spec_mul_fp(t8, g2) + spec_mul_fp(t12, g3);
    spec_mul_fp(t, sf)
}

pub fn atan_series(t: i128) -> (r: i128)
    requires
        0 <= t <= TAN_EIGHTH_FP,
    ensures
        r == spec_atan_series(t as int),
        0 <= r <= 600_000_000_000_000,
{
    let t2 = mul_fp(t, t);
    let t4 = mul_fp(t2, t2);
    let t8 = mul_fp(t4, t4);
    let t12 = mul_fp(t8, t4);
    let g0 = FP - floor_div(t2, 3);
    let g1 = floor_div(FP, 5) - floor_div(t2, 7);
    let g2 = floor_div(FP, 9) - floor_div(t2, 11);
    let g3 = floor_div(FP, 13) - floor_div(t2, 15);
    proof {
        vstd::arithmetic::div_mod::lemma_div_is_ordered(0, t2 as int, 3);
        vstd::arithmetic::div_mod::lemma_div_is_ordered(t2 as int, FP as int, 3);
        vstd::arithmetic::div_mod::lemma_div_is_ordered(0, t2 as int, 7);
        vstd::arithmetic::div_mod::lemma_div_is_ordered(t2 as int, TAN_EIGHTH_FP as int, 7);
        vstd::arithmetic::div_mod::lemma_div_is_ordered(0, t2 as int, 11);
        vstd::arithmetic::div_mod::lemma_div_is_ordered(t2 as int, TAN_EIGHTH_FP as int, 11);
        vstd::arithmetic::div_mod::lemma_div_is_ordered(0, t2 as int, 15);
        vstd::arithmetic::div_mod::lemma_div_is_ordered(t2 as int, TAN_EIGHTH_FP as int, 15);
    }
    let sf = g0 + mul_fp(t4, g1) + mul_fp(t8, g2) + mul_fp(t12, g3);
    let r = mul_fp(t, sf);
    proof {
        assert(0 <= sf <= 1_388_000_000_000_000);
        assert((t as int) * (sf as int) <= TAN_EIGHTH_FP * 1_388_000_000_000_000)
            by (nonlinear_arith)
            requires
                0 <= t <= TAN_EIGHTH_FP,
                0 <= sf <= 1_388_000_000_000_000,
        ;
        vstd::arithmetic::div_mod::lemma_div_is_ordered(
            (t as int) * (sf as int),
            TAN_EIGHTH_FP * 1_388_000_000_000_000,
            FP as int,
        );
        assert((TAN_EIGHTH_FP * 1_388_000_000_000_000) / (FP as int) <= 600_000_000_000_000);
    }
    r
}

/// Conversion of a small radian fixed-point value to microdegrees.
pub open spec fn spec_rad_fp_to_udeg(r: int) -> int {
    (r * 180_000_000) / (PI_FP as int)
}

/// atan on [0, 1] (fixed point), in microdegrees, split at tan 22.5 degrees
/// through atan t = 45 degrees - atan((1 - t) / (1 + t)).
pub open spec fn spec_atan_octant(t: int) -> int {
    if t <= TAN_EIGHTH_FP {
        spec_rad_fp_to_udeg(spec_atan_series(t))
    } else {
        let u = ((FP - t) * FP) / (FP + t);
        45_000_000 - spec_rad_fp_to_udeg(spec_atan_series(u))
    }
}

pub fn atan_octant(t: i128) -> (r: i128)
    requires
        0 <= t <= FP,
    ensures
        r == spec_atan_octant(t as int),
        0 <= r <= 45_000_000,
{
    if t <= TAN_EIGHTH_FP {
        let s = atan_series(t);
        let r = floor_div(s * 180_000_000, PI_FP);
        proof {
            vstd::arithmetic::div_mod::lemma_div_is_ordered(0, s as int * 180_000_000, PI_FP as int);
            vstd::arithmetic::div_mod::lemma_div_is_ordered(
                s as int * 180_000_000,
                600_000_000_000_000int * 180_000_000int,
                PI_FP as int,
            );
            assert((600_000_000_000_000int * 180_000_000int) / (PI_FP as int) <= 34_377_468);
        }
        r
    } else {
        let u = floor_div((FP - t) * FP, FP + t);
        proof {
            vstd::arithmetic::div_mod::lemma_div_is_ordered(0, (FP - t) as int * FP as int, (FP + t) as int);
            vstd::arithmetic::div_mod::lemma_div_is_ordered(
                (FP - t) as int * FP as int,
                (FP - TAN_EIGHTH_FP) * FP as int,
                (FP + t) as int,
            );
            vstd::arithmetic::div_mod::lemma_div_is_ordered_by_denominator(
                (FP - TAN_EIGHTH_FP) * FP as int,
                (FP + TAN_EIGHTH_FP) as int,
                (FP + t) as int,
            );
            assert(((FP - TAN_EIGHTH_FP) * (FP as int)) / ((FP + TAN_EIGHTH_FP) as int)
                <= TAN_EIGHTH_FP);
        }
        let s = atan_series(u);
        let c = floor_div(s * 180_000_000, PI_FP);
        proof {
            vstd::arithmetic::div_mod::lemma_div_is_ordered(0, s as int * 180_000_000, PI_FP as int);
            vstd::arithmetic::div_mod::lemma_div_is_ordered(
                s as int * 180_000_000,
                600_000_000_000_000int * 180_000_000int,
                PI_FP as int,
            );
            assert((600_000_000_000_000int * 180_000_000int) / (PI_FP as int) <= 34_377_468);
        }
        45_000_000 - c
    }
}

/// Two-argument arctangent in microdegrees, result in [-180e6, 180e6].
pub open spec fn spec_atan2_udeg(y: int, x: int) -> int {
    let ay = if y < 0 { -y } else { y };
    let ax = if x < 0 { -x } else { x };
    if ax == 0 && ay == 0 {
        0
    } else {
        let base = if ay <= ax {
            spec_atan_octant((ay * FP) / ax)
        } else {
            90_000_000 - spec_atan_octant((ax * FP) / ay)
        };
        if y >= 0 && x >= 0 {
            base
        } else if y >= 0 && x < 0 {
            180_000_000 - base
        } else if x < 0 {
            -(180_000_000 - base)
        } else {
            -base
        }
    }
}

pub fn atan2_udeg(y: i128, x: i128) -> (r: i128)
    requires
        -ATAN2_LIM <= y <= ATAN2_LIM,
        -ATAN2_LIM <= x <= ATAN2_LIM,
    ensures
        r == spec_atan2_udeg(y as int, x as int),
        -180_000_000 <= r <= 180_000_000,
        x >= 0 ==> -90_000_000 <= r <= 90_000_000,
        y >= 0 ==> 0 <= r <= 180_000_000,
        y < 0 ==> r <= 0,
{
    let ay = if y < 0 {
        -y
    } else {
        y
    };
    let ax = if x < 0 {
        -x
    } else {
        x
    };
    if ax == 0 && ay == 0 {
        0
    } else {
        let base = if ay <= ax {
            let t = floor_div(ay * FP, ax);
            proof {
                vstd::arithmetic::div_mod::lemma_div_is_ordered(0, (ay as int) * (FP as int), ax as int);
                assert((ay as int) * (FP as int) <= (ax as int) * (FP as int));
                vstd::arithmetic::div_mod::lemma_div_is_ordered(
                    (ay as int) * (FP as int),
                    (ax as int) * (FP as int),
                    ax as int,
                );
                vstd::arithmetic::div_mod::lemma_div_multiples_vanish(FP as int, ax as int);
                assert((ax as int) * (FP as int) == (ax as int) * (FP as int));
            }
            atan_octant(t)
        } else {
            let t = floor_div(ax * FP, ay);
            proof {
                vstd::arithmetic::div_mod::lemma_div_is_ordered(0, (ax as int) * (FP as int), ay as int);
                assert((ax as int) * (FP as int) <= (ay as int) * (FP as int));
                vstd::arithmetic::div_mod::lemma_div_is_ordered(
                    (ax as int) * (FP as int),
                    (ay as int) * (FP as int),
                    ay as int,
                );
                vstd::arithmetic::div_mod::lemma_div_multiples_vanish(FP as int, ay as int);
            }
            90_000_000 - atan_octant(t)
        };
        if y >= 0 && x >= 0 {
            base
        } else if y >= 0 && x < 0 {
            180_000_000 - base
        } else if x < 0 {
            -(180_000_000 - base)
        } else {
            -base
        }
    }
}

/// Arcsine of a fixed-point value in [-1, 1], in microdegrees, through
/// asin v = atan2(v, sqrt(1 - v * v)).
pub open spec fn spec_asin_udeg(v: int) -> int {
    spec_atan2_udeg(v, spec_isqrt((FP - v) * (FP + v)))
}

pub fn asin_fp(v: i128) -> (r: i128)
    requires
        -FP <= v <= FP,
    ensures
        r == spec_asin_udeg(v as int),
        -90_000_000 <= r <= 90_000_000,
{
    let lo = FP - v;
    let hi = FP + v;
    proof {
        assert(0 <= (lo as int) * (hi as int)) by (nonlinear_arith)
            requires
                lo >= 0,
                hi >= 0,
        ;
        assert((lo as int) * (hi as int) <= 2_000_000_000_000_000 * 2_000_000_000_000_000)
            by (nonlinear_arith)
            requires
                0 <= lo <= 2_000_000_000_000_000,
                0 <= hi <= 2_000_000_000_000_000,
        ;
    }
    let n = lo * hi;
    let w = isqrt(n as u128);
    proof {
        lemma_sq_le(w as int, 2_000_000_000_000_000);
    }
    let wi = w as i128;
    atan2_udeg(v, wi)
}

} // verus!
