use uptimeplot::calendar::{CalendarDate, UtcInstant};
use uptimeplot::catalog::{dec_from_dms, equatorial_from_catalog, ra_from_hms};
use uptimeplot::geodetic::StationPosition;
use uptimeplot::transform::{radec2azalt, EquatorialCoordinate};

fn yamaguchi() -> StationPosition {
    StationPosition { x_mm: -3_502_544_587, y_mm: 3_950_966_235, z_mm: 3_566_381_192 }
}

fn instant(year: i32, month: u8, day: u8, hour: u8, minute: u8, second: u8) -> UtcInstant {
    UtcInstant { date: CalendarDate { year, month, day }, hour, minute, second }
}

#[test]
fn ra_conversion() {
    // 12h 29m 06.7s of time is 187.2779166... degrees.
    assert_eq!(ra_from_hms(12, 29, 6_700_000), 187_277_916);
    assert_eq!(ra_from_hms(0, 0, 0), 0);
    assert_eq!(ra_from_hms(23, 59, 59_999_999), 359_999_999);
}

#[test]
fn dec_conversion() {
    // +02d 03m 08.6s is 2.0523888... degrees.
    assert_eq!(dec_from_dms(false, 2, 3, 8_600_000), 2_052_388);
    assert_eq!(dec_from_dms(true, 2, 3, 8_600_000), -2_052_388);
    assert_eq!(dec_from_dms(false, 90, 0, 0), 90_000_000);
    assert_eq!(dec_from_dms(true, 90, 0, 0), -90_000_000);
}

#[test]
fn dec_negative_zero_degree_field() {
    // A degree field written "-00" still means a southern declination:
    // the sign is carried apart from the magnitude.
    assert_eq!(dec_from_dms(true, 0, 3, 8_600_000), -52_388);
    assert_eq!(dec_from_dms(false, 0, 3, 8_600_000), 52_388);
}

#[test]
fn equatorial_from_catalog_fields() {
    let eq = equatorial_from_catalog(12, 29, 6_700_000, false, 2, 3, 8_600_000);
    assert_eq!(eq.ra_udeg, 187_277_916);
    assert_eq!(eq.dec_udeg, 2_052_388);
}

#[test]
fn transform_reference_case() {
    // The reference station observing the source at
    // RA 12h29m06.7s, Dec +02d03m08.6s on 2024-03-15 at 10:30 UTC.
    // A floating-point evaluation of the same formulas gives azimuth
    // 91.2839268 and elevation 5.5368619 degrees.
    let eq = equatorial_from_catalog(12, 29, 6_700_000, false, 2, 3, 8_600_000);
    let hc = radec2azalt(&yamaguchi(), &instant(2024, 3, 15, 10, 30, 0), &eq);
    assert_eq!(hc.az_udeg, 91_283_927);
    assert_eq!(hc.el_udeg, 5_536_862);
    assert_eq!(hc.height_mm, 165_722);
}

#[test]
fn transform_deterministic() {
    let eq = EquatorialCoordinate { ra_udeg: 187_277_916, dec_udeg: 2_052_388 };
    let a = radec2azalt(&yamaguchi(), &instant(2024, 3, 15, 10, 30, 0), &eq);
    let b = radec2azalt(&yamaguchi(), &instant(2024, 3, 15, 10, 30, 0), &eq);
    assert_eq!(a, b);
}

#[test]
fn zenith_source_reads_ninety_degrees() {
    // A source whose right ascension equals the local sidereal time and
    // whose declination equals the station latitude stands at the
    // zenith: elevation must read 90 degrees within 0.01 degrees.
    let eq = EquatorialCoordinate { ra_udeg: 19_852_973, dec_udeg: 34_216_036 };
    let hc = radec2azalt(&yamaguchi(), &instant(2024, 3, 15, 5, 0, 0), &eq);
    assert!((hc.el_udeg - 90_000_000).abs() <= 10_000);
}

#[test]
fn azimuth_offset_convention_unwrapped() {
    // Equator station, declination north of the zenith, hour angle
    // zero: the raw arctangent reads 180 degrees, so the engine's
    // azimuth is 360 degrees, not wrapped to 0.
    let st = StationPosition { x_mm: 6_378_137_000, y_mm: 0, z_mm: 0 };
    let eq = EquatorialCoordinate { ra_udeg: 323_501_221, dec_udeg: 30_000_000 };
    let hc = radec2azalt(&st, &instant(2024, 3, 15, 10, 0, 0), &eq);
    assert!(hc.az_udeg > 355_000_000);
    assert!(hc.az_udeg <= 360_000_000);
    assert!((hc.el_udeg - 60_000_000).abs() <= 10_000);
}
