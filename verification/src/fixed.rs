//! Fixed-point arithmetic kernel.
//!
//! Angles at the public interface are carried in microdegrees (`udeg`,
//! millionths of a degree) in `i64`; internal computations use `i128`
//! values scaled by `FP` (`1e15`), written `fp` below. All division is
//! floor division (toward negative infinity), which for positive divisors
//! coincides with the Euclidean division of specification arithmetic.

use vstd::prelude::*;

verus! {

/// Scale of internal fixed-point values: an `fp` value v stands for v / FP.
pub const FP: i128 = 1_000_000_000_000_000;

/// Largest magnitude accepted by `mul_fp` operands.
pub const MUL_FP_LIM: i128 = 4_000_000_000_000_000_000;

/// Loose magnitude bound on every `mul_fp` result.
pub const MUL_FP_OUT: i128 = 20_000_000_000_000_000_000_000;

/// Floor division by a positive divisor.
pub fn floor_div(a: i128, b: i128) -> (r: i128)
    requires
        b > 0,
        a > i128::MIN,
    ensures
        r == a as int / b as int,
{
    if a >= 0 {
        a / b
    } else {
        let m = (-a) % b;
        let q = (-a) / b;
        assert(-a >= 0);
        assert(q == (-a) as int / b as int);
        assert(m == (-a) as int % b as int);
        proof {
            vstd::arithmetic::div_mod::lemma_fundamental_div_mod(-a as int, b as int);
            vstd::arithmetic::div_mod::lemma_fundamental_div_mod(a as int, b as int);
            vstd::arithmetic::div_mod::lemma_mod_bound(a as int, b as int);
            assert((-a) as int == q * b + m);
            assert(a as int == (a as int / b as int) * b + (a as int % b as int));
            assert(0 <= (a as int % b as int) && (a as int % b as int) < b);
            assert(a as int == -((q as int) * b) - m);
            if m == 0 {
                assert((a as int / b as int) * b == (-(q as int)) * b) by (nonlinear_arith)
                    requires
                        a as int == (a as int / b as int) * b + (a as int % b as int),
                        0 <= (a as int % b as int) && (a as int % b as int) < b,
                        a as int == -((q as int) * b),
                        b > 0,
                ;
            }
        }
        if m == 0 {
            proof {
                assert(a as int / b as int == -(q as int)) by (nonlinear_arith)
                    requires
                        (a as int / b as int) * b == (-(q as int)) * b,
                        b > 0,
                ;
            }
            -q
        } else {
            proof {
                assert(a as int / b as int == -(q as int) - 1) by (nonlinear_arith)
                    requires
                        a as int == (a as int / b as int) * b + (a as int % b as int),
                        0 <= (a as int % b as int) && (a as int % b as int) < b,
                        a as int == -((q as int) * b) - m,
                        0 < m < b,
                        b > 0,
                ;
            }
            -q - 1
        }
    }
}

/// Floor remainder for a positive modulus: the result lies in `[0, b)`.
pub fn floor_mod(a: i128, b: i128) -> (r: i128)
    requires
        0 < b < i128::MAX / 4,
        -(i128::MAX / 4) < a < i128::MAX / 4,
    ensures
        r == a as int % b as int,
        0 <= r < b,
{
    proof {
        vstd::arithmetic::div_mod::lemma_fundamental_div_mod(a as int, b as int);
        vstd::arithmetic::div_mod::lemma_mod_bound(a as int, b as int);
    }
    let q = floor_div(a, b);
    proof {
        assert((q as int) * b == b * (q as int)) by (nonlinear_arith);
        assert(a as int == b * (a as int / b as int) + a as int % b as int);
        assert((q as int) * b == a as int - a as int % b as int);
    }
    a - q * b
}

/// The product of two fixed-point values, rescaled: floor(a * b / FP).
pub open spec fn spec_mul_fp(a: int, b: int) -> int {
    (a * b) / (FP as int)
}

/// Fixed-point multiplication with bounds that callers lean on:
/// the exact floor value, sign preservation, and contraction when one
/// operand is at most `FP` (so a factor at most one never enlarges the other).
pub fn mul_fp(a: i128, b: i128) -> (r: i128)
    requires
        -MUL_FP_LIM <= a <= MUL_FP_LIM,
        -MUL_FP_LIM <= b <= MUL_FP_LIM,
    ensures
        r == spec_mul_fp(a as int, b as int),
        -MUL_FP_OUT <= r <= MUL_FP_OUT,
        0 <= a && 0 <= b ==> 0 <= r,
        0 <= a <= FP && 0 <= b ==> r <= b,
        0 <= b <= FP && 0 <= a ==> r <= a,
        -FP <= a <= FP && -FP <= b <= FP ==> -FP <= r <= FP,
{
    proof {
        assert(-(MUL_FP_LIM * MUL_FP_LIM) <= (a as int) * (b as int) <= MUL_FP_LIM * MUL_FP_LIM)
            by (nonlinear_arith)
            requires
                -MUL_FP_LIM <= a <= MUL_FP_LIM,
                -MUL_FP_LIM <= b <= MUL_FP_LIM,
        ;
    }
    let p = a * b;
    let r = floor_div(p, FP);
    proof {
        let f = FP as int;
        vstd::arithmetic::div_mod::lemma_div_is_ordered(p as int, MUL_FP_LIM * MUL_FP_LIM, f);
        vstd::arithmetic::div_mod::lemma_div_is_ordered(-(MUL_FP_LIM * MUL_FP_LIM), p as int, f);
        assert((MUL_FP_LIM * MUL_FP_LIM) / f == 16_000_000_000_000_000_000_000);
        assert((-(MUL_FP_LIM * MUL_FP_LIM)) / f == -16_000_000_000_000_000_000_000);
        if 0 <= a && 0 <= b {
            assert(0 <= (a as int) * (b as int)) by (nonlinear_arith)
                requires
                    0 <= a,
                    0 <= b,
            ;
            vstd::arithmetic::div_mod::lemma_div_is_ordered(0, p as int, f);
        }
        if 0 <= a <= FP && 0 <= b {
            assert((a as int) * (b as int) <= f * b as int) by (nonlinear_arith)
                requires
                    0 <= a <= f,
                    0 <= b,
            ;
            vstd::arithmetic::div_mod::lemma_div_is_ordered(p as int, f * b as int, f);
            vstd::arithmetic::div_mod::lemma_div_multiples_vanish(b as int, f);
        }
        if 0 <= b <= FP && 0 <= a {
            assert((a as int) * (b as int) <= f * a as int) by (nonlinear_arith)
                requires
                    0 <= b <= f,
                    0 <= a,
            ;
            vstd::arithmetic::div_mod::lemma_div_is_ordered(p as int, f * a as int, f);
            vstd::arithmetic::div_mod::lemma_div_multiples_vanish(a as int, f);
        }
        if -FP <= a <= FP && -FP <= b <= FP {
            assert(-(f * f) <= (a as int) * (b as int) <= f * f) by (nonlinear_arith)
                requires
                    -f <= a <= f,
                    -f <= b <= f,
            ;
            vstd::arithmetic::div_mod::lemma_div_is_ordered(p as int, f * f, f);
            vstd::arithmetic::div_mod::lemma_div_is_ordered(-(f * f), p as int, f);
            assert((f * f) / f == f);
            assert((-(f * f)) / f == -f);
        }
    }
    r
}

/// Clamp a fixed-point value into `[-FP, FP]`, the domain of `asin`.
pub open spec fn spec_clamp_fp(v: int) -> int {
    if v < -(FP as int) {
        -(FP as int)
    } else if v > FP as int {
        FP as int
    } else {
        v
    }
}

pub fn clamp_fp(v: i128) -> (r: i128)
    ensures
        r == spec_clamp_fp(v as int),
        -FP <= r <= FP,
{
    if v < -FP {
        -FP
    } else if v > FP {
        FP
    } else {
        v
    }
}

/// The integer square root: the unique r with r * r <= n < (r + 1) * (r + 1).
pub open spec fn spec_isqrt(n: int) -> int {
    choose|r: int| 0 <= r && #[trigger] (r * r) <= n && n < (r + 1) * (r + 1)
}

pub proof fn lemma_isqrt_unique(n: int, r: int)
    requires
        0 <= r,
        r * r <= n < (r + 1) * (r + 1),
    ensures
        spec_isqrt(n) == r,
{
    assert(0 <= r && r * r <= n < (r + 1) * (r + 1));
    let s = spec_isqrt(n);
    assert(0 <= s && s * s <= n < (s + 1) * (s + 1));
    assert(s == r) by (nonlinear_arith)
        requires
            0 <= r,
            0 <= s,
            r * r <= n < (r + 1) * (r + 1),
            s * s <= n < (s + 1) * (s + 1),
    ;
}

/// Floor square root by bisection.
pub fn isqrt(n: u128) -> (r: u128)
    requires
        n < 0x40000000000000000000000000000000u128,
    ensures
        r * r <= n < (r + 1) * (r + 1),
        r == spec_isqrt(n as int),
        r < 0x8000000000000000u128,
{
    let mut lo: u128 = 0;
    let mut hi: u128 = 0x8000000000000000;
    proof {
        assert((0x8000000000000000 as int) * (0x8000000000000000 as int)
            == 0x40000000000000000000000000000000);
    }
    while lo + 1 < hi
        invariant
            lo < hi <= 0x8000000000000000,
            lo * lo <= n,
            (hi as int) * (hi as int) > n,
        decreases hi - lo,
    {
        let mid = lo + (hi - lo) / 2;
        proof {
            assert(mid < hi);
            assert((mid as int) * (mid as int) < 0x40000000000000000000000000000000) by (nonlinear_arith)
                requires
                    0 <= mid < 0x8000000000000000,
            ;
        }
        if mid * mid <= n {
            lo = mid;
        } else {
            hi = mid;
        }
    }
    proof {
        assert(hi == lo + 1);
        lemma_isqrt_unique(n as int, lo as int);
    }
    lo
}

/// From r * r <= k * k and 0 <= r, conclude r <= k.
pub proof fn lemma_sq_le(r: int, k: int)
    requires
        0 <= r,
        0 <= k,
        r * r <= k * k,
    ensures
        r <= k,
{
    assert(r <= k) by (nonlinear_arith)
        requires
            0 <= r,
            0 <= k,
            r * r <= k * k,
    ;
}

} // verus!
