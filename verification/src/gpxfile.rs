//! A whole track: its segments, and their samples as one sequence.
use vstd::prelude::*;
use crate::gpxsource::GpxSource;
use crate::segments::Segment;
use crate::waypoint::Waypoint;

verus! {

/// The samples of the first `n` segments, one segment after the other.
pub open spec fn flatten_upto(segments: Seq<Segment>, n: int) -> Seq<Waypoint>
    decreases n,
{
    if n <= 0 {
        Seq::empty()
    } else {
        flatten_upto(segments, n - 1) + segments[n - 1].track()
    }
}

/// The samples of all the segments, one segment after the other.
pub open spec fn flatten(segments: Seq<Segment>) -> Seq<Waypoint> {
    flatten_upto(segments, segments.len() as int)
}

/// The flattened samples depend on the samples of each segment alone.
pub proof fn lemma_flatten_same_tracks(a: Seq<Segment>, b: Seq<Segment>, n: int)
    requires
        0 <= n <= a.len(),
        n <= b.len(),
        forall|k: int| 0 <= k < n ==> (#[trigger] a[k]).track() == (#[trigger] b[k]).track(),
    ensures
        flatten_upto(a, n) == flatten_upto(b, n),
    decreases n,
{
    if n > 0 {
        lemma_flatten_same_tracks(a, b, n - 1);
    }
}

/// A track. `points` holds the samples that the metrics and the matcher read.
#[derive(Clone, Debug, PartialEq, Eq)]
pub struct GpxFile {
    pub segments: Vec<Segment>,
    pub points: Vec<Waypoint>,
}

impl GpxFile {
    /// `points` is the samples of `segments`, one segment after the other.
    pub open spec fn wf(&self) -> bool {
        self.points@ == flatten(self.segments@)
    }
}

impl GpxSource<Vec<Segment>, GpxFile> for GpxFile {
    open spec fn track(&self) -> Seq<Waypoint> {
        self.points@
    }

    /// A track of the given segments, in their order.
    fn new(segments: &Vec<Segment>) -> (file: GpxFile)
        ensures
            file.wf(),
            file.track() == flatten(segments@),
            file.segments.len() == segments.len(),
            forall|k: int|
                0 <= k < segments.len() ==> (#[trigger] file.segments@[k]).track()
                    == segments@[k].track(),
    {
        let mut segs: Vec<Segment> = Vec::new();
        let mut pt: Vec<Waypoint> = Vec::new();
        let mut i: usize = 0;
        while i < segments.len()
            invariant
                i <= segments.len(),
                segs.len() == i,
                forall|k: int|
                    0 <= k < i ==> (#[trigger] segs@[k]).track() == segments@[k].track(),
                pt@ == flatten_upto(segments@, i as int),
            decreases segments.len() - i,
        {
            let mut p: Vec<Waypoint> = segments[i].points();
            let s: Segment = Segment::new(&p);
            segs.push(s);
            pt.append(&mut p);
            i = i + 1;
        }
        proof {
            lemma_flatten_same_tracks(segs@, segments@, segs.len() as int);
        }
        GpxFile { segments: segs, points: pt }
    }

    fn points(&self) -> (pts: Vec<Waypoint>) {
        self.points.clone()
    }
}

} // verus!
