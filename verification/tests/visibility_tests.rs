use uptimeplot::calendar::{CalendarDate, UtcInstant};
use uptimeplot::geodetic::StationPosition;
use uptimeplot::sampler::sample_visibility_curve;
use uptimeplot::transform::{radec2azalt, EquatorialCoordinate};

fn equator_station() -> StationPosition {
    StationPosition { x_mm: 6_378_137_000, y_mm: 0, z_mm: 0 }
}

fn high_latitude_station() -> StationPosition {
    // Geodetic latitude 70 degrees north, on the ellipsoid.
    StationPosition { x_mm: 2_187_927_649, y_mm: 0, z_mm: 5_971_040_007 }
}

fn march_day() -> CalendarDate {
    CalendarDate { year: 2024, month: 3, day: 15 }
}

#[test]
fn sampler_is_deterministic() {
    let st = equator_station();
    let d = march_day();
    let eq = EquatorialCoordinate { ra_udeg: 187_277_916, dec_udeg: 2_052_388 };
    let a = sample_visibility_curve(&st, &d, &eq);
    let b = sample_visibility_curve(&st, &d, &eq);
    assert_eq!(a, b);
}

#[test]
fn azimuth_series_has_481_points() {
    let st = equator_station();
    let d = march_day();
    let eq = EquatorialCoordinate { ra_udeg: 0, dec_udeg: 0 };
    let c = sample_visibility_curve(&st, &d, &eq);
    assert_eq!(c.azimuth.len(), 481);
    for (i, s) in c.azimuth.iter().enumerate() {
        assert_eq!(s.minute_of_day as usize, 3 * i);
    }
    assert_eq!(c.azimuth[0].minute_of_day, 0);
    assert_eq!(c.azimuth[480].minute_of_day, 1440);
}

#[test]
fn elevation_series_drops_first_point_below_horizon() {
    // Equator station, zero-declination source at upper transit near
    // midday: below the horizon at midnight, so the first elevation
    // point is omitted outright, not marked as a gap.
    let st = equator_station();
    let d = march_day();
    let eq = EquatorialCoordinate { ra_udeg: 0, dec_udeg: 0 };
    let c = sample_visibility_curve(&st, &d, &eq);
    assert_eq!(c.elevation.len(), 480);
    assert_eq!(c.elevation[0].minute_of_day, 3);
    assert_eq!(c.elevation[0].elevation_udeg, None);
}

#[test]
fn elevation_series_keeps_first_point_above_horizon() {
    let st = high_latitude_station();
    let d = CalendarDate { year: 2024, month: 6, day: 1 };
    let eq = EquatorialCoordinate { ra_udeg: 123_456_789, dec_udeg: 80_000_000 };
    let c = sample_visibility_curve(&st, &d, &eq);
    assert_eq!(c.elevation.len(), 481);
    assert_eq!(c.elevation[0].minute_of_day, 0);
}

#[test]
fn gap_exactly_where_transform_reads_below_horizon() {
    // Every stored elevation is at or above the horizon, and every gap
    // stands where the transform engine, asked independently, reads a
    // negative elevation.
    let st = equator_station();
    let d = march_day();
    let eq = EquatorialCoordinate { ra_udeg: 187_277_916, dec_udeg: 2_052_388 };
    let c = sample_visibility_curve(&st, &d, &eq);
    for s in c.elevation.iter() {
        let minute = s.minute_of_day;
        let t = UtcInstant {
            date: d,
            hour: (minute / 60) as u8,
            minute: (minute % 60) as u8,
            second: 0,
        };
        let hc = radec2azalt(&st, &t, &eq);
        match s.elevation_udeg {
            Some(v) => {
                assert!(v >= 0);
                assert_eq!(v, hc.el_udeg);
            }
            None => {
                assert!(hc.el_udeg < 0);
            }
        }
    }
}

#[test]
fn time_axes_stay_aligned() {
    let st = equator_station();
    let d = march_day();
    let eq = EquatorialCoordinate { ra_udeg: 0, dec_udeg: 0 };
    let c = sample_visibility_curve(&st, &d, &eq);
    let offset = c.azimuth.len() - c.elevation.len();
    assert_eq!(offset, 1);
    for (j, s) in c.elevation.iter().enumerate() {
        assert_eq!(s.minute_of_day, c.azimuth[j + offset].minute_of_day);
    }
    let cp = sample_visibility_curve(
        &high_latitude_station(),
        &CalendarDate { year: 2024, month: 6, day: 1 },
        &EquatorialCoordinate { ra_udeg: 123_456_789, dec_udeg: 80_000_000 },
    );
    assert_eq!(cp.azimuth.len(), cp.elevation.len());
    for (j, s) in cp.elevation.iter().enumerate() {
        assert_eq!(s.minute_of_day, cp.azimuth[j].minute_of_day);
    }
}

#[test]
fn equatorial_source_rises_and_sets_once() {
    // A zero-declination source seen from the equator crosses the
    // horizon exactly twice over the day: one rise, one set.
    let st = equator_station();
    let d = march_day();
    let eq = EquatorialCoordinate { ra_udeg: 0, dec_udeg: 0 };
    let c = sample_visibility_curve(&st, &d, &eq);
    let gaps: Vec<bool> = c.elevation.iter().map(|s| s.elevation_udeg.is_none()).collect();
    let mut transitions = 0;
    for k in 1..gaps.len() {
        if gaps[k] != gaps[k - 1] {
            transitions += 1;
        }
    }
    assert_eq!(transitions, 2);
    // Half of the day above, half below the horizon.
    assert_eq!(gaps.iter().filter(|g| **g).count(), 240);
    // Rise and set stand about six hours either side of the transit:
    // twelve hours of visibility, with the highest point in the middle.
    let mut rise = None;
    let mut set = None;
    for k in 1..gaps.len() {
        if gaps[k - 1] && !gaps[k] {
            rise = Some(k);
        }
        if !gaps[k - 1] && gaps[k] {
            set = Some(k);
        }
    }
    let rise = rise.unwrap();
    let set = set.unwrap();
    let transit = c
        .elevation
        .iter()
        .enumerate()
        .filter_map(|(k, s)| s.elevation_udeg.map(|v| (v, k)))
        .max()
        .unwrap()
        .1;
    // 240 samples of three minutes are twelve hours; 120 are six.
    assert!((set as i64 - rise as i64 - 240).abs() <= 2);
    assert!((transit as i64 - rise as i64 - 120).abs() <= 2);
    assert!((set as i64 - transit as i64 - 120).abs() <= 2);
}

#[test]
fn circumpolar_source_never_gaps() {
    // Latitude 70 N observing declination 80 N: the source never sets,
    // so the elevation series has no gap at all.
    let st = high_latitude_station();
    let d = CalendarDate { year: 2024, month: 6, day: 1 };
    let eq = EquatorialCoordinate { ra_udeg: 123_456_789, dec_udeg: 80_000_000 };
    let c = sample_visibility_curve(&st, &d, &eq);
    assert_eq!(c.elevation.len(), 481);
    let mut min_el = i64::MAX;
    for s in c.elevation.iter() {
        match s.elevation_udeg {
            Some(v) => {
                if v < min_el {
                    min_el = v;
                }
            }
            None => panic!("unexpected gap for a circumpolar source"),
        }
    }
    // The lowest culmination is near latitude + declination - 90 = 60.
    assert!((min_el - 60_000_000).abs() < 500_000);
}

#[test]
fn azimuth_series_equals_transform_at_every_sample() {
    let st = equator_station();
    let d = march_day();
    let eq = EquatorialCoordinate { ra_udeg: 187_277_916, dec_udeg: 2_052_388 };
    let c = sample_visibility_curve(&st, &d, &eq);
    for s in c.azimuth.iter() {
        let minute = s.minute_of_day;
        let t = UtcInstant {
            date: d,
            hour: (minute / 60) as u8,
            minute: (minute % 60) as u8,
            second: 0,
        };
        let hc = radec2azalt(&st, &t, &eq);
        assert_eq!(s.azimuth_udeg, hc.az_udeg);
    }
}

#[test]
fn day_end_equals_next_midnight() {
    // The 24:00 endpoint of one day is the 00:00 start of the next:
    // the transform reads the same instant either way.
    let st = equator_station();
    let eq = EquatorialCoordinate { ra_udeg: 187_277_916, dec_udeg: 2_052_388 };
    let end = UtcInstant { date: march_day(), hour: 24, minute: 0, second: 0 };
    let next = UtcInstant {
        date: CalendarDate { year: 2024, month: 3, day: 16 },
        hour: 0,
        minute: 0,
        second: 0,
    };
    assert_eq!(radec2azalt(&st, &end, &eq), radec2azalt(&st, &next, &eq));
}

#[test]
fn azimuth_series_continuous_while_elevation_gaps() {
    let st = equator_station();
    let d = march_day();
    let eq = EquatorialCoordinate { ra_udeg: 0, dec_udeg: 0 };
    let c = sample_visibility_curve(&st, &d, &eq);
    assert_eq!(c.azimuth.len(), 481);
    for s in c.azimuth.iter() {
        assert!(s.azimuth_udeg >= 0);
        assert!(s.azimuth_udeg <= 360_000_000);
    }
}
