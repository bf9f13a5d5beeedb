//! Greenwich mean sidereal time from the Julian Day, by the standard
//! polynomial in time since J2000.0, carried in integer arithmetic.
//!
//! Internally the polynomial is summed in thousandths of a microdegree
//! so that the published coefficients are held exactly, then reduced to
//! a microdegree angle in [0, 360) degrees.

use vstd::prelude::*;

use crate::fixed::{floor_div, floor_mod};

verus! {

/// Seconds per Julian century.
pub const CENTURY_S: i128 = 3_155_760_000;

/// Seconds from the J2000.0 epoch (Julian Day 2451545.0) to the given
/// noon-referenced Julian Day Number and second of day.
pub open spec fn spec_j2000_seconds(jdn: int, sod: int) -> int {
    (jdn - 2451545) * 86400 + sod - 43200
}

/// Greenwich mean sidereal time in microdegrees, in [0, 360e6).
///
/// The four terms are the usual sidereal polynomial: a constant, a rate
/// per day, and the two slow century-scale corrections; each is held in
/// units of a thousandth of a microdegree.
pub open spec fn spec_gmst_udeg(jdn: int, sod: int) -> int {
    let ds = spec_j2000_seconds(jdn, sod);
    let term1 = 280_460_618_370int;
    let term2 = (ds * 36_098_564_736_629) / 8_640_000;
    let term3 = (387_933 * (ds * ds)) / (3_155_760_000 * (CENTURY_S as int));
    let q1 = (ds * ds) / (CENTURY_S as int);
    let q2 = (q1 * ds) / (CENTURY_S as int);
    let term4 = (q2 * 1_000_000_000) / (38_710_000 * (CENTURY_S as int));
    ((term1 + term2 + term3 - term4) / 1000) % 360_000_000
}

pub fn gmst_udeg(jdn: i64, sod: u32) -> (r: i64)
    requires
        2_298_000 <= jdn <= 5_374_000,
        sod <= 86400,
    ensures
        r == spec_gmst_udeg(jdn as int, sod as int),
        0 <= r < 360_000_000,
{
    let ds: i128 = ((jdn as i128) - 2451545) * 86400 + (sod as i128) - 43200;
    assert(-14_000_000_000 <= ds <= 253_000_000_000);
    let term2 = floor_div(ds * 36_098_564_736_629, 8_640_000);
    proof {
        vstd::arithmetic::div_mod::lemma_div_is_ordered(
            (ds as int) * 36_098_564_736_629,
            253_000_000_000int * 36_098_564_736_629,
            8_640_000,
        );
        vstd::arithmetic::div_mod::lemma_div_is_ordered(
            (-14_000_000_000int) * 36_098_564_736_629,
            (ds as int) * 36_098_564_736_629,
            8_640_000,
        );
    }
    proof {
        assert(0 <= (ds as int) * (ds as int) <= 253_000_000_000int * 253_000_000_000int)
            by (nonlinear_arith)
            requires
                -253_000_000_000 <= ds <= 253_000_000_000,
        ;
    }
    let ds2 = ds * ds;
    let term3 = floor_div(387_933 * ds2, 3_155_760_000 * CENTURY_S);
    proof {
        vstd::arithmetic::div_mod::lemma_div_is_ordered(
            0,
            387_933 * (ds2 as int),
            3_155_760_000 * (CENTURY_S as int),
        );
        vstd::arithmetic::div_mod::lemma_div_is_ordered(
            387_933 * (ds2 as int),
            387_933 * (253_000_000_000int * 253_000_000_000int),
            3_155_760_000 * (CENTURY_S as int),
        );
    }
    let q1 = floor_div(ds2, CENTURY_S);
    proof {
        vstd::arithmetic::div_mod::lemma_div_is_ordered(0, ds2 as int, CENTURY_S as int);
        vstd::arithmetic::div_mod::lemma_div_is_ordered(
            ds2 as int,
            253_000_000_000int * 253_000_000_000int,
            CENTURY_S as int,
        );
        assert((253_000_000_000int * 253_000_000_000int) / (CENTURY_S as int)
            <= 21_000_000_000_000);
    }
    proof {
        assert(-(21_000_000_000_000int * 253_000_000_000int) <= (q1 as int) * (ds as int)
            <= 21_000_000_000_000int * 253_000_000_000int) by (nonlinear_arith)
            requires
                0 <= q1 <= 21_000_000_000_000,
                -253_000_000_000 <= ds <= 253_000_000_000,
        ;
    }
    let q1ds = q1 * ds;
    let q2 = floor_div(q1ds, CENTURY_S);
    proof {
        vstd::arithmetic::div_mod::lemma_div_is_ordered(
            q1ds as int,
            21_000_000_000_000int * 253_000_000_000int,
            CENTURY_S as int,
        );
        vstd::arithmetic::div_mod::lemma_div_is_ordered(
            -(21_000_000_000_000int * 253_000_000_000int),
            q1ds as int,
            CENTURY_S as int,
        );
    }
    let term4 = floor_div(q2 * 1_000_000_000, 38_710_000 * CENTURY_S);
    proof {
        vstd::arithmetic::div_mod::lemma_div_is_ordered(
            (q2 as int) * 1_000_000_000,
            2_000_000_000_000_000int * 1_000_000_000,
            38_710_000 * (CENTURY_S as int),
        );
        vstd::arithmetic::div_mod::lemma_div_is_ordered(
            (-2_000_000_000_000_000int) * 1_000_000_000,
            (q2 as int) * 1_000_000_000,
            38_710_000 * (CENTURY_S as int),
        );
    }
    let total: i128 = 280_460_618_370 + term2 + term3 - term4;
    let scaled = floor_div(total, 1000);
    proof {
        vstd::arithmetic::div_mod::lemma_div_is_ordered(
            total as int,
            2_000_000_000_000_000_000_000int,
            1000,
        );
        vstd::arithmetic::div_mod::lemma_div_is_ordered(
            -2_000_000_000_000_000_000_000int,
            total as int,
            1000,
        );
    }
    let r = floor_mod(scaled, 360_000_000);
    r as i64
}

} // verus!
