//! Recorded samples of a GPS track, in fixed-point units.
//!
//! Every quantity is an integer so that the track metrics and the matcher are
//! exact: coordinates are signed multiples of 1e-7 degree, elevations are
//! millimetres, timestamps are milliseconds since the Unix epoch, and ground
//! distances are millimetres.
use vstd::prelude::*;

verus! {

/// A position on the globe: latitude and longitude, each in units of 1e-7 degree.
#[derive(Clone, Copy, Debug, PartialEq, Eq, Structural)]
pub struct Point {
    pub lat: i32,
    pub lon: i32,
}

impl Point {
    pub fn new(lat: i32, lon: i32) -> (p: Point)
        ensures
            p == (Point { lat, lon }),
    {
        Point { lat, lon }
    }

    /// The latitude, in units of 1e-7 degree.
    pub fn lat(&self) -> (r: i32)
        ensures
            r == self.lat,
    {
        self.lat
    }

    /// The longitude, in units of 1e-7 degree.
    pub fn lng(&self) -> (r: i32)
        ensures
            r == self.lon,
    {
        self.lon
    }
}

/// One recorded sample.
///
/// `leg` is the great-circle ground distance, in millimetres, between the
/// sample recorded just before this one and this one. Whoever records or
/// loads the track measures it; the first sample of a track has no
/// predecessor and its `leg` is never read.
#[derive(Clone, Copy, Debug, PartialEq, Eq, Structural)]
pub struct Waypoint {
    pub point: Point,
    /// Elevation in millimetres, where the recorder stored one.
    pub elevation: Option<i32>,
    /// Milliseconds since the Unix epoch, UTC, where the recorder stored a time.
    pub time: Option<i64>,
    pub leg: u32,
}

impl Waypoint {
    /// A sample at `point` with no elevation, no timestamp and a leg of zero.
    pub fn new(point: Point) -> (w: Waypoint)
        ensures
            w == (Waypoint { point, elevation: None, time: None, leg: 0 }),
    {
        Waypoint { point, elevation: None, time: None, leg: 0 }
    }

    pub fn point(&self) -> (p: Point)
        ensures
            p == self.point,
    {
        self.point
    }
}

} // verus!
