use uptimeplot::calendar::{days_in_month, is_leap_year, julian_day_number, seconds_of_day};
use uptimeplot::calendar::{CalendarDate, UtcInstant};
use uptimeplot::fixed::isqrt;
use uptimeplot::geodetic::{ecef_to_geodetic, StationPosition};
use uptimeplot::sidereal::gmst_udeg;
use uptimeplot::trig::{asin_fp, atan2_udeg, sin_cos_udeg};

fn date(year: i32, month: u8, day: u8) -> CalendarDate {
    CalendarDate { year, month, day }
}

#[test]
fn leap_year_rule() {
    assert!(is_leap_year(2000));
    assert!(!is_leap_year(1900));
    assert!(is_leap_year(2024));
    assert!(!is_leap_year(2023));
    assert!(is_leap_year(1600));
}

#[test]
fn month_lengths() {
    assert_eq!(days_in_month(2024, 2), 29);
    assert_eq!(days_in_month(2023, 2), 28);
    assert_eq!(days_in_month(2024, 1), 31);
    assert_eq!(days_in_month(2024, 4), 30);
    assert_eq!(days_in_month(1900, 2), 28);
    assert_eq!(days_in_month(2000, 2), 29);
}

#[test]
fn julian_day_reference_values() {
    assert_eq!(julian_day_number(&date(2000, 1, 1)), 2451545);
    assert_eq!(julian_day_number(&date(1999, 12, 31)), 2451544);
    assert_eq!(julian_day_number(&date(2024, 2, 29)), 2460370);
    assert_eq!(julian_day_number(&date(2024, 3, 15)), 2460385);
    assert_eq!(julian_day_number(&date(1583, 1, 1)), 2299239);
    assert_eq!(julian_day_number(&date(9999, 12, 31)), 5373484);
}

#[test]
fn seconds_of_day_counts() {
    let t = UtcInstant { date: date(2024, 3, 15), hour: 10, minute: 30, second: 0 };
    assert_eq!(seconds_of_day(&t), 37800);
    let end = UtcInstant { date: date(2024, 3, 15), hour: 24, minute: 0, second: 0 };
    assert_eq!(seconds_of_day(&end), 86400);
}

#[test]
fn sidereal_time_reference_values() {
    // 2024-03-15 10:30:00 UTC; the float evaluation of the same
    // polynomial gives 331.02176 degrees.
    assert_eq!(gmst_udeg(2460385, 37800), 331021756);
    // At the J2000.0 epoch the polynomial reduces to its constant term.
    assert_eq!(gmst_udeg(2451545, 43200), 280460618);
}

#[test]
fn integer_square_root() {
    assert_eq!(isqrt(0), 0);
    assert_eq!(isqrt(1), 1);
    assert_eq!(isqrt(3), 1);
    assert_eq!(isqrt(4), 2);
    assert_eq!(isqrt(10u128.pow(30)), 10u128.pow(15));
    assert_eq!(isqrt(10u128.pow(30) - 1), 10u128.pow(15) - 1);
}

#[test]
fn sine_cosine_reference_values() {
    assert_eq!(sin_cos_udeg(0), (0, 1_000_000_000_000_000));
    assert_eq!(sin_cos_udeg(90_000_000), (1_000_000_000_000_000, 0));
    assert_eq!(sin_cos_udeg(-90_000_000), (-1_000_000_000_000_000, 0));
    let (s, c) = sin_cos_udeg(30_000_000);
    // sin 30 = 0.5 and cos 30 = 0.8660254038, to ten decimal places.
    assert!((s - 500_000_000_000_000i128).abs() < 1_000_000);
    assert!((c - 866_025_403_784_439i128).abs() < 1_000_000);
    // The engine is exact integer arithmetic: the very values, not just
    // the neighborhood, are pinned.
    assert_eq!(s, 500_000_000_020_279);
    assert_eq!(c, 866_025_403_783_555);
}

#[test]
fn sine_periodicity() {
    assert_eq!(sin_cos_udeg(30_000_000), sin_cos_udeg(30_000_000 + 360_000_000));
    assert_eq!(sin_cos_udeg(30_000_000), sin_cos_udeg(30_000_000 - 720_000_000));
}

#[test]
fn arctangent_reference_values() {
    assert_eq!(atan2_udeg(1, 1), 45_000_000);
    assert_eq!(atan2_udeg(1, 0), 90_000_000);
    assert_eq!(atan2_udeg(-3, -3), -135_000_000);
    assert_eq!(atan2_udeg(0, 5), 0);
    let r = atan2_udeg(0, -5);
    assert!(r == 180_000_000);
}

#[test]
fn arcsine_reference_values() {
    // asin 0.5 = 30 degrees, within a microdegree of rounding.
    let r = asin_fp(500_000_000_000_000);
    assert!((r - 30_000_000i128).abs() <= 2);
    assert_eq!(asin_fp(1_000_000_000_000_000), 90_000_000);
    assert_eq!(asin_fp(-1_000_000_000_000_000), -90_000_000);
    assert_eq!(asin_fp(0), 0);
}

#[test]
fn geodetic_reference_station() {
    // A station in western Japan, ECEF (-3502544.587, 3950966.235, 3566381.192) meters: longitude
    // 131.5570941 E, latitude 34.2160359 N, height about 165.7 m.
    let st = StationPosition { x_mm: -3_502_544_587, y_mm: 3_950_966_235, z_mm: 3_566_381_192 };
    let g = ecef_to_geodetic(&st);
    assert_eq!(g.lon_udeg, 131_557_095);
    assert_eq!(g.lat_udeg, 34_216_036);
    assert_eq!(g.height_mm, 165_722);
}

#[test]
fn geodetic_equator() {
    let st = StationPosition { x_mm: 6_378_137_000, y_mm: 0, z_mm: 0 };
    let g = ecef_to_geodetic(&st);
    assert_eq!(g.lon_udeg, 0);
    assert_eq!(g.lat_udeg, 0);
    assert_eq!(g.height_mm, 0);
}
