//! Conversions from the catalog schema's sexagesimal fields to the
//! engine's microdegree coordinates.
//!
//! A source record carries right ascension as hours, minutes and
//! seconds of time, and declination as degrees, arcminutes and
//! arcseconds whose sign is written on the degree field. The sign is a
//! separate argument here, because a catalog degree field of "-00"
//! still means a southern declination although its magnitude is zero.
//! Second fields keep their fraction as integer microseconds or
//! micro-arcseconds.

use vstd::prelude::*;

use crate::transform::EquatorialCoordinate;

verus! {

/// Right ascension in microdegrees from hours, minutes and
/// microseconds of time: one second of time is 1/240 degree.
pub open spec fn spec_ra_udeg(h: int, m: int, s_micro: int) -> int {
    (h * 3_600_000_000 + m * 60_000_000 + s_micro) / 240
}

/// Declination magnitude in microdegrees from degrees, arcminutes and
/// micro-arcseconds: 3600 arcseconds to the degree.
pub open spec fn spec_dec_mag_udeg(d: int, m: int, s_micro: int) -> int {
    (d * 3_600_000_000 + m * 60_000_000 + s_micro) / 3600
}

pub open spec fn spec_dec_udeg(negative: bool, d: int, m: int, s_micro: int) -> int {
    if negative {
        -spec_dec_mag_udeg(d, m, s_micro)
    } else {
        spec_dec_mag_udeg(d, m, s_micro)
    }
}

/// Right ascension of a catalog record, in microdegrees.
pub fn ra_from_hms(h: u8, m: u8, s_micro: u32) -> (r: i64)
    requires
        h < 24,
        m < 60,
        s_micro < 60_000_000,
    ensures
        r == spec_ra_udeg(h as int, m as int, s_micro as int),
        0 <= r < 360_000_000,
{
    let total: u64 = (h as u64) * 3_600_000_000 + (m as u64) * 60_000_000 + (s_micro as u64);
    let r = total / 240;
    proof {
        vstd::arithmetic::div_mod::lemma_div_is_ordered(0, total as int, 240);
        vstd::arithmetic::div_mod::lemma_div_is_ordered(total as int, 86_399_999_999, 240);
    }
    r as i64
}

/// Declination of a catalog record, in microdegrees; `negative` is the
/// sign character parsed off the degree field, kept apart from the
/// magnitude so that a "-00" degree field still points south.
pub fn dec_from_dms(negative: bool, d: u8, m: u8, s_micro: u32) -> (r: i64)
    requires
        d <= 90,
        m < 60,
        s_micro < 60_000_000,
        d == 90 ==> m == 0 && s_micro == 0,
    ensures
        r == spec_dec_udeg(negative, d as int, m as int, s_micro as int),
        -90_000_000 <= r <= 90_000_000,
{
    let total: u64 = (d as u64) * 3_600_000_000 + (m as u64) * 60_000_000 + (s_micro as u64);
    let mag = total / 3600;
    proof {
        vstd::arithmetic::div_mod::lemma_div_is_ordered(0, total as int, 3600);
        vstd::arithmetic::div_mod::lemma_div_is_ordered(total as int, 324_000_000_000, 3600);
    }
    if negative {
        -(mag as i64)
    } else {
        mag as i64
    }
}

/// Build a source's equatorial coordinate from its catalog fields.
pub fn equatorial_from_catalog(
    ra_h: u8,
    ra_m: u8,
    ra_s_micro: u32,
    dec_negative: bool,
    dec_d: u8,
    dec_m: u8,
    dec_s_micro: u32,
) -> (r: EquatorialCoordinate)
    requires
        ra_h < 24,
        ra_m < 60,
        ra_s_micro < 60_000_000,
        dec_d <= 90,
        dec_m < 60,
        dec_s_micro < 60_000_000,
        dec_d == 90 ==> dec_m == 0 && dec_s_micro == 0,
    ensures
        r.ra_udeg == spec_ra_udeg(ra_h as int, ra_m as int, ra_s_micro as int),
        r.dec_udeg == spec_dec_udeg(dec_negative, dec_d as int, dec_m as int, dec_s_micro as int),
        r.valid(),
{
    EquatorialCoordinate {
        ra_udeg: ra_from_hms(ra_h, ra_m, ra_s_micro),
        dec_udeg: dec_from_dms(dec_negative, dec_d, dec_m, dec_s_micro),
    }
}

} // verus!
