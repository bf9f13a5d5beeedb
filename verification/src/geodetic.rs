//! Conversion of an Earth-centered Cartesian station position to
//! geodetic longitude, latitude and ellipsoidal height on the reference
//! ellipsoid, by the closed-form (parametric-latitude) method.
//!
//! Positions are carried in millimeters, angles in microdegrees. Height
//! switches to the polar form away from the equator so that neither
//! divisor can vanish.

use vstd::prelude::*;

use crate::fixed::{FP, floor_div, mul_fp, isqrt};
use crate::fixed::{spec_mul_fp, spec_isqrt, lemma_sq_le};
use crate::trig::{atan2_udeg, sin_cos_udeg, spec_atan2_udeg, spec_sin_fp, spec_cos_fp};

verus! {

/// Semi-major axis of the reference ellipsoid, in millimeters.
pub const A_MM: i128 = 6_378_137_000;

/// Semi-minor axis of the reference ellipsoid, in millimeters.
pub const B_MM: i128 = 6_356_752_314;

/// First eccentricity squared, scaled by `FP`.
pub const E2_FP: i128 = 6_694_379_990_141;

/// Second eccentricity squared times the semi-minor axis, in millimeters.
pub const EP2B_MM: i128 = 42_841_312;

/// First eccentricity squared times the semi-major axis, in millimeters.
pub const E2A_MM: i128 = 42_697_673;

/// Largest station coordinate magnitude accepted, in millimeters.
pub const ECEF_LIM: i64 = 100_000_000_000;

/// A station's Earth-centered Cartesian position, in millimeters.
#[derive(Clone, Copy, PartialEq, Eq, Structural, Debug)]
pub struct StationPosition {
    pub x_mm: i64,
    pub y_mm: i64,
    pub z_mm: i64,
}

impl StationPosition {
    /// Coordinates a ground station can have; the bound keeps every
    /// intermediate product inside 128-bit arithmetic.
    pub open spec fn valid(self) -> bool {
        -ECEF_LIM <= self.x_mm <= ECEF_LIM && -ECEF_LIM <= self.y_mm <= ECEF_LIM && -ECEF_LIM
            <= self.z_mm <= ECEF_LIM
    }
}

/// Geodetic longitude and latitude in microdegrees, height in millimeters.
#[derive(Clone, Copy, PartialEq, Eq, Structural, Debug)]
pub struct GeodeticPosition {
    pub lon_udeg: i64,
    pub lat_udeg: i64,
    pub height_mm: i64,
}

impl GeodeticPosition {
    /// The ranges that `ecef_to_geodetic` guarantees.
    pub open spec fn valid(self) -> bool {
        -180_000_000 <= self.lon_udeg <= 180_000_000 && -180_000_000 <= self.lat_udeg
            <= 180_000_000 && -300_000_000_000 <= self.height_mm <= 300_000_000_000
    }
}

/// The whole conversion as a function of the coordinates alone.
pub open spec fn spec_ecef_to_geodetic(x: int, y: int, z: int) -> (int, int, int) {
    let p = spec_isqrt(x * x + y * y);
    let lon = spec_atan2_udeg(y, x);
    let th = spec_atan2_udeg(z * (A_MM as int), p * (B_MM as int));
    let st = spec_sin_fp(th);
    let ct = spec_cos_fp(th);
    let s3 = spec_mul_fp(spec_mul_fp(st, st), st);
    let c3 = spec_mul_fp(spec_mul_fp(ct, ct), ct);
    let num = z + ((EP2B_MM as int) * s3) / (FP as int);
    let den = p - ((E2A_MM as int) * c3) / (FP as int);
    let lat = spec_atan2_udeg(num, den);
    let sl = spec_sin_fp(lat);
    let cl = spec_cos_fp(lat);
    let sl2 = spec_mul_fp(sl, sl);
    let qq = (FP as int) - ((E2_FP as int) * sl2) / (FP as int);
    let w = spec_isqrt(qq * (FP as int));
    let n_mm = ((A_MM as int) * (FP as int)) / w;
    let n1 = (n_mm * ((FP - E2_FP) as int)) / (FP as int);
    let h = if -45_000_000 <= lat <= 45_000_000 {
        (p * (FP as int)) / cl - n_mm
    } else if 45_000_000 < lat <= 90_000_000 {
        (z * (FP as int)) / sl - n1
    } else if -90_000_000 <= lat < -45_000_000 {
        ((-z) * (FP as int)) / (-sl) - n1
    } else {
        0
    };
    (lon, lat, h)
}

/// Convert a station position to geodetic coordinates.
pub fn ecef_to_geodetic(pos: &StationPosition) -> (r: GeodeticPosition)
    requires
        pos.valid(),
    ensures
        (r.lon_udeg as int, r.lat_udeg as int, r.height_mm as int) == spec_ecef_to_geodetic(
            pos.x_mm as int,
            pos.y_mm as int,
            pos.z_mm as int,
        ),
        r.valid(),
{
    let x = pos.x_mm as i128;
    let y = pos.y_mm as i128;
    let z = pos.z_mm as i128;
    proof {
        assert(0 <= x * x <= 10_000_000_000_000_000_000_000int) by (nonlinear_arith)
            requires
                -100_000_000_000 <= x <= 100_000_000_000,
        ;
        assert(0 <= y * y <= 10_000_000_000_000_000_000_000int) by (nonlinear_arith)
            requires
                -100_000_000_000 <= y <= 100_000_000_000,
        ;
    }
    let n = x * x + y * y;
    let p128 = isqrt(n as u128) as i128;
    proof {
        lemma_sq_le(p128 as int, 150_000_000_000);
    }
    let lon = atan2_udeg(y, x);
    let th = atan2_udeg(z * A_MM, p128 * B_MM);
    let (st, ct) = sin_cos_udeg(th as i64);
    let s3 = mul_fp(mul_fp(st, st), st);
    let c3 = mul_fp(mul_fp(ct, ct), ct);
    let num = z + floor_div(EP2B_MM * s3, FP);
    proof {
        vstd::arithmetic::div_mod::lemma_div_is_ordered(
            (EP2B_MM as int) * (s3 as int),
            (EP2B_MM as int) * (FP as int),
            FP as int,
        );
        vstd::arithmetic::div_mod::lemma_div_is_ordered(
            (-EP2B_MM as int) * (FP as int),
            (EP2B_MM as int) * (s3 as int),
            FP as int,
        );
    }
    let den = p128 - floor_div(E2A_MM * c3, FP);
    proof {
        vstd::arithmetic::div_mod::lemma_div_is_ordered(
            (E2A_MM as int) * (c3 as int),
            (E2A_MM as int) * (FP as int),
            FP as int,
        );
        vstd::arithmetic::div_mod::lemma_div_is_ordered(
            (-E2A_MM as int) * (FP as int),
            (E2A_MM as int) * (c3 as int),
            FP as int,
        );
    }
    let lat = atan2_udeg(num, den);
    let (sl, cl) = sin_cos_udeg(lat as i64);
    proof {
        assert(0 <= (sl as int) * (sl as int)) by (nonlinear_arith);
    }
    let sl2 = mul_fp(sl, sl);
    proof {
        vstd::arithmetic::div_mod::lemma_div_is_ordered(0, (sl as int) * (sl as int), FP as int);
    }
    let qq = FP - floor_div(E2_FP * sl2, FP);
    proof {
        vstd::arithmetic::div_mod::lemma_div_is_ordered(0, (E2_FP as int) * (sl2 as int), FP as int);
        vstd::arithmetic::div_mod::lemma_div_is_ordered(
            (E2_FP as int) * (sl2 as int),
            (E2_FP as int) * (FP as int),
            FP as int,
        );
        vstd::arithmetic::div_mod::lemma_div_multiples_vanish(E2_FP as int, FP as int);
    }
    let wn = qq * FP;
    let w = isqrt(wn as u128) as i128;
    proof {
        lemma_sq_le(w as int, FP as int);
        assert((996_000_000_000_000int) * (996_000_000_000_000int) <= wn as int);
        assert((w + 1) as int * ((w + 1) as int) > wn as int);
        assert(w + 1 > 996_000_000_000_000int) by (nonlinear_arith)
            requires
                ((w + 1) as int) * ((w + 1) as int) > wn as int,
                (996_000_000_000_000int) * (996_000_000_000_000int) <= wn as int,
                w >= 0,
        ;
    }
    let n_mm = floor_div(A_MM * FP, w);
    proof {
        vstd::arithmetic::div_mod::lemma_div_is_ordered_by_denominator(
            (A_MM as int) * (FP as int),
            995_999_999_999_999int,
            w as int,
        );
        vstd::arithmetic::div_mod::lemma_div_is_ordered_by_denominator(
            (A_MM as int) * (FP as int),
            w as int,
            FP as int,
        );
        assert(((A_MM as int) * (FP as int)) / 995_999_999_999_999int <= 6_403_800_000);
        assert(((A_MM as int) * (FP as int)) / (FP as int) == A_MM);
    }
    let n1 = floor_div(n_mm * (FP - E2_FP), FP);
    proof {
        vstd::arithmetic::div_mod::lemma_div_is_ordered(
            0,
            (n_mm as int) * ((FP - E2_FP) as int),
            FP as int,
        );
        vstd::arithmetic::div_mod::lemma_div_is_ordered(
            (n_mm as int) * ((FP - E2_FP) as int),
            6_403_800_000int * ((FP - E2_FP) as int),
            FP as int,
        );
    }
    let h: i128 = if -45_000_000 <= lat && lat <= 45_000_000 {
        let t = floor_div(p128 * FP, cl);
        proof {
            vstd::arithmetic::div_mod::lemma_div_is_ordered_by_denominator(
                (p128 as int) * (FP as int),
                690_000_000_000_000int,
                cl as int,
            );
            vstd::arithmetic::div_mod::lemma_div_is_ordered(
                (p128 as int) * (FP as int),
                150_000_000_000int * (FP as int),
                690_000_000_000_000int,
            );
            vstd::arithmetic::div_mod::lemma_div_is_ordered(0, (p128 as int) * (FP as int), cl as int);
        }
        t - n_mm
    } else if 45_000_000 < lat && lat <= 90_000_000 {
        let t = floor_div(z * FP, sl);
        proof {
            lemma_signed_quot_bound(z as int, sl as int);
        }
        t - n1
    } else if -90_000_000 <= lat && lat < -45_000_000 {
        let t = floor_div((-z) * FP, -sl);
        proof {
            lemma_signed_quot_bound((-z) as int, (-sl) as int);
        }
        t - n1
    } else {
        0
    };
    GeodeticPosition { lon_udeg: lon as i64, lat_udeg: lat as i64, height_mm: h as i64 }
}

/// Bound on z * FP / s for a station coordinate z and a sine bounded
/// away from zero.
proof fn lemma_signed_quot_bound(z: int, s: int)
    requires
        -100_000_000_000 <= z <= 100_000_000_000,
        690_000_000_000_000 <= s <= FP as int,
    ensures
        -150_000_000_000 <= (z * (FP as int)) / s <= 150_000_000_000,
{
    vstd::arithmetic::div_mod::lemma_div_is_ordered(
        z * (FP as int),
        100_000_000_000int * (FP as int),
        s,
    );
    vstd::arithmetic::div_mod::lemma_div_is_ordered(
        (-100_000_000_000int) * (FP as int),
        z * (FP as int),
        s,
    );
    vstd::arithmetic::div_mod::lemma_div_is_ordered_by_denominator(
        100_000_000_000int * (FP as int),
        690_000_000_000_000int,
        s,
    );
    assert((100_000_000_000int * (FP as int)) / 690_000_000_000_000int <= 145_000_000_000);
    lemma_neg_div_bound(z * (FP as int), s);
}

/// For a non-positive numerator bounded below, the floor quotient is
/// bounded below by the bound's quotient at the smallest divisor.
proof fn lemma_neg_div_bound(n: int, s: int)
    requires
        -100_000_000_000 * (FP as int) <= n,
        690_000_000_000_000 <= s <= FP as int,
    ensures
        (-150_000_000_000int) <= n / s,
{
    if n >= 0 {
        vstd::arithmetic::div_mod::lemma_div_is_ordered(0, n, s);
    } else {
        vstd::arithmetic::div_mod::lemma_div_is_ordered(
            (-100_000_000_000int) * (FP as int),
            n,
            s,
        );
        lemma_neg_div_denominator(
            (-100_000_000_000int) * (FP as int),
            690_000_000_000_000int,
            s,
        );
        assert(((-100_000_000_000int) * (FP as int)) / 690_000_000_000_000int
            >= -145_000_000_000 - 1);
    }
}

/// For a negative numerator, a larger divisor gives a larger (less
/// negative) floor quotient.
proof fn lemma_neg_div_denominator(n: int, d1: int, d2: int)
    requires
        n < 0,
        0 < d1 <= d2,
    ensures
        n / d1 <= n / d2,
{
    vstd::arithmetic::div_mod::lemma_fundamental_div_mod(n, d1);
    vstd::arithmetic::div_mod::lemma_mod_bound(n, d1);
    vstd::arithmetic::div_mod::lemma_fundamental_div_mod(n, d2);
    vstd::arithmetic::div_mod::lemma_mod_bound(n, d2);
    assert(n / d1 <= n / d2) by (nonlinear_arith)
        requires
            n == d1 * (n / d1) + n % d1,
            n == d2 * (n / d2) + n % d2,
            0 <= n % d1 < d1,
            0 <= n % d2 < d2,
            0 < d1 <= d2,
            n < 0,
    ;
}

} // verus!
