//! Topocentric visibility engine for ground-based radio observation.
//!
//! Converts a station's Earth-centered Cartesian position and a source's
//! equatorial coordinates into time series of horizontal (azimuth and
//! elevation) coordinates over a civil-UTC day. All angular arithmetic is
//! carried out in scaled integers so that every step is verified.

pub mod fixed;
pub mod trig;
pub mod calendar;
pub mod sidereal;
pub mod geodetic;
pub mod transform;
pub mod sampler;
pub mod catalog;
pub mod parse;
