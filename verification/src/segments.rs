//! One continuously recorded leg of a track.
use vstd::prelude::*;
use crate::gpxsource::GpxSource;
use crate::waypoint::Waypoint;

verus! {

/// An ordered run of samples, in recording order.
#[derive(Clone, Debug, PartialEq, Eq)]
pub struct Segment {
    segment: Vec<Waypoint>,
}

impl GpxSource<Vec<Waypoint>, Segment> for Segment {
    closed spec fn track(&self) -> Seq<Waypoint> {
        self.segment@
    }

    /// A segment of the given samples, in their order.
    fn new(t: &Vec<Waypoint>) -> (s: Segment)
        ensures
            s.track() == t@,
    {
        Segment { segment: t.clone() }
    }

    fn points(&self) -> (pts: Vec<Waypoint>) {
        self.segment.clone()
    }
}

} // verus!
