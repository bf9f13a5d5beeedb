//! The horizon transform: from a UTC instant, a station's geodetic
//! coordinates and a source's equatorial coordinates to topocentric
//! azimuth and elevation.
//!
//! The hour angle is sidereal time plus east longitude minus right
//! ascension. Elevation is asin(sin d sin l + cos d cos l cos H);
//! azimuth is the two-argument arctangent form with both arguments
//! scaled by cos d, plus the engine's fixed 180-degree offset, left
//! unwrapped on purpose, so it lies in [0, 360] degrees.

use vstd::prelude::*;

use crate::calendar::{CalendarDate, UtcInstant, julian_day_number, seconds_of_day};
use crate::calendar::{spec_jdn, spec_seconds_of_day};
use crate::fixed::{FP, clamp_fp, mul_fp};
use crate::fixed::{spec_clamp_fp, spec_mul_fp};
use crate::geodetic::{GeodeticPosition, StationPosition, ecef_to_geodetic, spec_ecef_to_geodetic};
use crate::sidereal::{gmst_udeg, spec_gmst_udeg};
use crate::trig::{asin_fp, atan2_udeg, sin_cos_udeg};
use crate::trig::{spec_asin_udeg, spec_atan2_udeg, spec_cos_fp, spec_sin_fp};

verus! {

/// A source's right ascension and declination, in microdegrees.
#[derive(Clone, Copy, PartialEq, Eq, Structural, Debug)]
pub struct EquatorialCoordinate {
    pub ra_udeg: i64,
    pub dec_udeg: i64,
}

impl EquatorialCoordinate {
    pub open spec fn valid(self) -> bool {
        0 <= self.ra_udeg < 360_000_000 && -90_000_000 <= self.dec_udeg <= 90_000_000
    }
}

/// Topocentric azimuth and elevation in microdegrees, with the station
/// height carried through for the caller.
#[derive(Clone, Copy, PartialEq, Eq, Structural, Debug)]
pub struct HorizontalCoordinate {
    pub az_udeg: i64,
    pub el_udeg: i64,
    pub height_mm: i64,
}

/// The local hour angle: sidereal time minus west-positive longitude
/// minus right ascension. Longitude here is east-positive, so it enters
/// negated, which makes the sum gmst + lon - ra.
pub open spec fn spec_hour_angle(gmst: int, lon: int, ra: int) -> int {
    gmst - (-lon) - ra
}

/// Local hour angle in microdegrees; the quadrant reduction inside the
/// trigonometry accepts it unnormalized.
pub fn hour_angle_udeg(gmst: i64, lon: i64, ra: i64) -> (r: i64)
    requires
        0 <= gmst < 360_000_000,
        -180_000_000 <= lon <= 180_000_000,
        0 <= ra < 360_000_000,
    ensures
        r == spec_hour_angle(gmst as int, lon as int, ra as int),
        -540_000_000 <= r <= 540_000_000,
{
    gmst + lon - ra
}

/// Azimuth and elevation from hour angle, declination and latitude,
/// all in microdegrees.
pub open spec fn spec_azel(ha: int, dec: int, lat: int) -> (int, int) {
    let sh = spec_sin_fp(ha);
    let ch = spec_cos_fp(ha);
    let sd = spec_sin_fp(dec);
    let cd = spec_cos_fp(dec);
    let sl = spec_sin_fp(lat);
    let cl = spec_cos_fp(lat);
    let se = spec_clamp_fp(spec_mul_fp(sd, sl) + spec_mul_fp(spec_mul_fp(cd, cl), ch));
    let el = spec_asin_udeg(se);
    let ay = spec_mul_fp(sh, cd);
    let ax = spec_mul_fp(spec_mul_fp(ch, sl), cd) - spec_mul_fp(sd, cl);
    let az = spec_atan2_udeg(ay, ax) + 180_000_000;
    (az, el)
}

/// The full transform for one instant: geodetic conversion, sidereal
/// time, hour angle, then the horizontal coordinates; the third
/// component is the geodetic height.
pub open spec fn spec_radec2azalt(
    x: int,
    y: int,
    z: int,
    year: int,
    month: int,
    day: int,
    sod: int,
    ra: int,
    dec: int,
) -> (int, int, int) {
    let g = spec_ecef_to_geodetic(x, y, z);
    let gmst = spec_gmst_udeg(spec_jdn(year, month, day), sod);
    let ae = spec_azel(spec_hour_angle(gmst, g.0, ra), dec, g.1);
    (ae.0, ae.1, g.2)
}

/// The horizon transform on an already-converted geodetic position.
pub fn equatorial_to_horizontal(
    geo: &GeodeticPosition,
    t: &UtcInstant,
    eq: &EquatorialCoordinate,
) -> (r: HorizontalCoordinate)
    requires
        geo.valid(),
        t.valid(),
        eq.valid(),
    ensures
        ({
            let gmst = spec_gmst_udeg(
                spec_jdn(t.date.year as int, t.date.month as int, t.date.day as int),
                spec_seconds_of_day(t.hour as int, t.minute as int, t.second as int),
            );
            let ae = spec_azel(
                spec_hour_angle(gmst, geo.lon_udeg as int, eq.ra_udeg as int),
                eq.dec_udeg as int,
                geo.lat_udeg as int,
            );
            r.az_udeg == ae.0 && r.el_udeg == ae.1
        }),
        r.height_mm == geo.height_mm,
        0 <= r.az_udeg <= 360_000_000,
        -90_000_000 <= r.el_udeg <= 90_000_000,
{
    let jdn = julian_day_number(&t.date);
    let sod = seconds_of_day(t);
    let gmst = gmst_udeg(jdn, sod);
    let ha = hour_angle_udeg(gmst, geo.lon_udeg, eq.ra_udeg);
    let (sh, ch) = sin_cos_udeg(ha);
    let (sd, cd) = sin_cos_udeg(eq.dec_udeg);
    let (sl, cl) = sin_cos_udeg(geo.lat_udeg);
    let se = clamp_fp(mul_fp(sd, sl) + mul_fp(mul_fp(cd, cl), ch));
    let el = asin_fp(se);
    let ay = mul_fp(sh, cd);
    let ax = mul_fp(mul_fp(ch, sl), cd) - mul_fp(sd, cl);
    let az = atan2_udeg(ay, ax) + 180_000_000;
    HorizontalCoordinate {
        az_udeg: az as i64,
        el_udeg: el as i64,
        height_mm: geo.height_mm,
    }
}

/// The full transform from the station's Cartesian position, converting
/// to geodetic coordinates itself; equals the specification mirror for
/// every valid input, so repeated calls agree bit for bit.
pub fn radec2azalt(pos: &StationPosition, t: &UtcInstant, eq: &EquatorialCoordinate) -> (r:
    HorizontalCoordinate)
    requires
        pos.valid(),
        t.valid(),
        eq.valid(),
    ensures
        (r.az_udeg as int, r.el_udeg as int, r.height_mm as int) == spec_radec2azalt(
            pos.x_mm as int,
            pos.y_mm as int,
            pos.z_mm as int,
            t.date.year as int,
            t.date.month as int,
            t.date.day as int,
            spec_seconds_of_day(t.hour as int, t.minute as int, t.second as int),
            eq.ra_udeg as int,
            eq.dec_udeg as int,
        ),
        0 <= r.az_udeg <= 360_000_000,
        -90_000_000 <= r.el_udeg <= 90_000_000,
{
    let geo = ecef_to_geodetic(pos);
    equatorial_to_horizontal(&geo, t, eq)
}

} // verus!
