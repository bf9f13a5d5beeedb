//! The visibility sampler: one civil-UTC day on a fixed three-minute
//! grid of 481 samples, both endpoints included.
//!
//! The azimuth series always holds all 481 samples. The elevation series
//! replaces each below-horizon sample with an explicit gap, except that a
//! below-horizon first sample is omitted outright, so the series has 480
//! or 481 points. Both series carry the sample's minute of day, so index
//! i of the azimuth series and index i - (481 - elevation length) of the
//! elevation series lie on the same instant.

use vstd::prelude::*;

use crate::calendar::{CalendarDate, UtcInstant};
use crate::geodetic::{StationPosition, ecef_to_geodetic};
use crate::transform::{EquatorialCoordinate, equatorial_to_horizontal, spec_radec2azalt};

verus! {

/// One azimuth sample: the curve is continuous, never a gap.
#[derive(Clone, Copy, PartialEq, Eq, Debug)]
pub struct AzimuthSample {
    pub minute_of_day: u16,
    pub azimuth_udeg: i64,
}

/// One elevation sample; `None` is the gap marker for a below-horizon
/// instant, so a rendered line breaks there.
#[derive(Clone, Copy, PartialEq, Eq, Debug)]
pub struct ElevationSample {
    pub minute_of_day: u16,
    pub elevation_udeg: Option<i64>,
}

/// The two aligned series for one source on one day.
#[derive(PartialEq, Eq, Debug)]
pub struct VisibilityCurve {
    pub azimuth: Vec<AzimuthSample>,
    pub elevation: Vec<ElevationSample>,
}

/// The transform at minute m of the day: azimuth, elevation, height.
pub open spec fn spec_sample_azalt(
    st: StationPosition,
    d: CalendarDate,
    minute: int,
    eq: EquatorialCoordinate,
) -> (int, int, int) {
    spec_radec2azalt(
        st.x_mm as int,
        st.y_mm as int,
        st.z_mm as int,
        d.year as int,
        d.month as int,
        d.day as int,
        minute * 60,
        eq.ra_udeg as int,
        eq.dec_udeg as int,
    )
}

/// How many leading samples the elevation series omits: one exactly
/// when the midnight sample is below the horizon.
pub open spec fn spec_first_omitted(
    st: StationPosition,
    d: CalendarDate,
    eq: EquatorialCoordinate,
) -> int {
    if spec_sample_azalt(st, d, 0, eq).1 >= 0 {
        0
    } else {
        1
    }
}

/// The full characterization of a day's curve: series lengths, the
/// minute grid, every azimuth value, and the gap rule for every
/// elevation value. It pins the curve down completely, so any two
/// curves satisfying it are equal.
pub open spec fn curve_matches(
    st: StationPosition,
    d: CalendarDate,
    eq: EquatorialCoordinate,
    c: VisibilityCurve,
) -> bool {
    let off = spec_first_omitted(st, d, eq);
    &&& c.azimuth@.len() == 481
    &&& forall|i: int|
        0 <= i < 481 ==> (#[trigger] c.azimuth@[i]).minute_of_day == 3 * i
    &&& forall|i: int|
        0 <= i < 481 ==> (#[trigger] c.azimuth@[i]).azimuth_udeg == spec_sample_azalt(
            st,
            d,
            3 * i,
            eq,
        ).0
    &&& c.elevation@.len() == 481 - off
    &&& forall|j: int|
        0 <= j < c.elevation@.len() ==> (#[trigger] c.elevation@[j]).minute_of_day == 3 * (j + off)
    &&& forall|j: int|
        0 <= j < c.elevation@.len() ==> {
            let v = spec_sample_azalt(st, d, 3 * (j + off), eq).1;
            if v >= 0 {
                (#[trigger] c.elevation@[j]).elevation_udeg == Some(v as i64) && 0 <= v
                    <= 90_000_000
            } else {
                c.elevation@[j].elevation_udeg is None
            }
        }
}

/// Sample one source's visibility over one day: 481 instants three
/// minutes apart, both midnights included. The azimuth series is
/// continuous; the elevation series follows the gap rule, dropping a
/// below-horizon first point instead of marking it.
pub fn sample_visibility_curve(
    st: &StationPosition,
    d: &CalendarDate,
    eq: &EquatorialCoordinate,
) -> (r: VisibilityCurve)
    requires
        st.valid(),
        d.valid(),
        eq.valid(),
    ensures
        curve_matches(*st, *d, *eq, r),
        r.azimuth@.len() == 481,
        r.elevation@.len() == 481 - spec_first_omitted(*st, *d, *eq),
{
    let ghost off = spec_first_omitted(*st, *d, *eq);
    let geo = ecef_to_geodetic(st);
    let mut azimuth: Vec<AzimuthSample> = Vec::new();
    let mut elevation: Vec<ElevationSample> = Vec::new();
    let mut i: usize = 0;
    while i <= 480
        invariant
            st.valid(),
            d.valid(),
            eq.valid(),
            i <= 481,
            (geo.lon_udeg as int, geo.lat_udeg as int, geo.height_mm as int)
                == crate::geodetic::spec_ecef_to_geodetic(
                st.x_mm as int,
                st.y_mm as int,
                st.z_mm as int,
            ),
            geo.valid(),
            off == spec_first_omitted(*st, *d, *eq),
            azimuth@.len() == i,
            forall|k: int|
                0 <= k < i ==> (#[trigger] azimuth@[k]).minute_of_day == 3 * k,
            forall|k: int|
                0 <= k < i ==> (#[trigger] azimuth@[k]).azimuth_udeg == spec_sample_azalt(
                    *st,
                    *d,
                    3 * k,
                    *eq,
                ).0,
            i == 0 ==> elevation@.len() == 0,
            i >= 1 ==> elevation@.len() == i - off,
            forall|j: int|
                0 <= j < elevation@.len() ==> (#[trigger] elevation@[j]).minute_of_day == 3 * (j
                    + off),
            forall|j: int|
                0 <= j < elevation@.len() ==> {
                    let v = spec_sample_azalt(*st, *d, 3 * (j + off), *eq).1;
                    if v >= 0 {
                        (#[trigger] elevation@[j]).elevation_udeg == Some(v as i64) && 0 <= v
                            <= 90_000_000
                    } else {
                        elevation@[j].elevation_udeg is None
                    }
                },
        decreases 481 - i,
    {
        let minute: u16 = 3 * (i as u16);
        let hour: u8 = (minute / 60) as u8;
        let mn: u8 = (minute % 60) as u8;
        proof {
            vstd::arithmetic::div_mod::lemma_fundamental_div_mod(minute as int, 60);
            vstd::arithmetic::div_mod::lemma_mod_bound(minute as int, 60);
        }
        let t = UtcInstant { date: *d, hour, minute: mn, second: 0 };
        assert(t.valid());
        assert(crate::calendar::spec_seconds_of_day(t.hour as int, t.minute as int, t.second as int)
            == (minute as int) * 60);
        let hc = equatorial_to_horizontal(&geo, &t, eq);
        proof {
            assert((hc.az_udeg as int, hc.el_udeg as int, hc.height_mm as int)
                == spec_sample_azalt(*st, *d, 3 * (i as int), *eq));
        }
        azimuth.push(AzimuthSample { minute_of_day: minute, azimuth_udeg: hc.az_udeg });
        if i == 0 {
            if hc.el_udeg >= 0 {
                elevation.push(
                    ElevationSample { minute_of_day: minute, elevation_udeg: Some(hc.el_udeg) },
                );
            }
        } else {
            if hc.el_udeg >= 0 {
                elevation.push(
                    ElevationSample { minute_of_day: minute, elevation_udeg: Some(hc.el_udeg) },
                );
            } else {
                elevation.push(ElevationSample { minute_of_day: minute, elevation_udeg: None });
            }
        }
        i = i + 1;
    }
    VisibilityCurve { azimuth, elevation }
}

/// Determinism: the characterization pins every field of both series,
/// so two curves for the same station, date and source are equal.
pub proof fn lemma_sample_deterministic(
    st: StationPosition,
    d: CalendarDate,
    eq: EquatorialCoordinate,
    c1: VisibilityCurve,
    c2: VisibilityCurve,
)
    requires
        curve_matches(st, d, eq, c1),
        curve_matches(st, d, eq, c2),
    ensures
        c1.azimuth@ == c2.azimuth@,
        c1.elevation@ == c2.elevation@,
{
    assert forall|i: int| 0 <= i < 481 implies c1.azimuth@[i] == c2.azimuth@[i] by {
        assert(c1.azimuth@[i].minute_of_day == 3 * i);
        assert(c2.azimuth@[i].minute_of_day == 3 * i);
    }
    assert(c1.azimuth@ =~= c2.azimuth@);
    let off = spec_first_omitted(st, d, eq);
    assert forall|j: int| 0 <= j < c1.elevation@.len() implies c1.elevation@[j]
        == c2.elevation@[j] by {
        assert(c1.elevation@[j].minute_of_day == 3 * (j + off));
        assert(c2.elevation@[j].minute_of_day == 3 * (j + off));
    }
    assert(c1.elevation@ =~= c2.elevation@);
}

/// Time-axis alignment: elevation index j and azimuth index j plus the
/// number of omitted leading samples lie on the same minute of day.
pub proof fn lemma_time_axis_alignment(
    st: StationPosition,
    d: CalendarDate,
    eq: EquatorialCoordinate,
    c: VisibilityCurve,
)
    requires
        curve_matches(st, d, eq, c),
    ensures
        forall|j: int|
            0 <= j < c.elevation@.len() ==> (#[trigger] c.elevation@[j]).minute_of_day
                == c.azimuth@[j + 481 - c.elevation@.len()].minute_of_day,
{
    let off = spec_first_omitted(st, d, eq);
    assert forall|j: int| 0 <= j < c.elevation@.len() implies (#[trigger] c.elevation@[j]).minute_of_day
        == c.azimuth@[j + 481 - c.elevation@.len()].minute_of_day by {
        assert(c.elevation@[j].minute_of_day == 3 * (j + off));
        assert(c.azimuth@[j + off].minute_of_day == 3 * (j + off));
    }
}

/// Gap rule, read back from the characterization: a stored elevation is
/// never negative, and a gap stands exactly where the engine's own
/// elevation for that instant is below the horizon.
pub proof fn lemma_gap_iff_below_horizon(
    st: StationPosition,
    d: CalendarDate,
    eq: EquatorialCoordinate,
    c: VisibilityCurve,
    j: int,
)
    requires
        curve_matches(st, d, eq, c),
        0 <= j < c.elevation@.len(),
    ensures
        c.elevation@[j].elevation_udeg is Some ==> c.elevation@[j].elevation_udeg->Some_0 >= 0,
        c.elevation@[j].elevation_udeg is None <==> spec_sample_azalt(
            st,
            d,
            3 * (j + spec_first_omitted(st, d, eq)),
            eq,
        ).1 < 0,
{
    let off = spec_first_omitted(st, d, eq);
    let v = spec_sample_azalt(st, d, 3 * (j + off), eq).1;
    if v >= 0 {
        assert(c.elevation@[j].elevation_udeg == Some(v as i64));
    }
}

} // verus!
