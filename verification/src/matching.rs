//! The correspondence scan between two tracks, the extraction of the matched
//! stretch, and the choice of the best stretch over growing tolerances.
use vstd::prelude::*;
use crate::metrics::length_2d_of;
use crate::waypoint::{Point, Waypoint};

verus! {

// ---------------------------------------------------------------------------
// Nearness
// ---------------------------------------------------------------------------

/// Squared planar difference of two positions, in squared coordinate units.
pub open spec fn distance_sq(a: Point, b: Point) -> int {
    (a.lat - b.lat) * (a.lat - b.lat) + (a.lon - b.lon) * (a.lon - b.lon)
}

/// `a` and `b` are the same place up to a tolerance radius, in coordinate units.
pub open spec fn within(a: Point, b: Point, tolerance: int) -> bool {
    distance_sq(a, b) <= tolerance * tolerance
}

/// Tests two positions for nearness.
pub fn is_within(a: Point, b: Point, tolerance: u64) -> (r: bool)
    ensures
        r == within(a, b, tolerance as int),
{
    let dlat: i128 = a.lat as i128 - b.lat as i128;
    let dlon: i128 = a.lon as i128 - b.lon as i128;
    let radius: u128 = tolerance as u128;
    assert(0 <= dlat * dlat <= 0xffff_ffff * 0xffff_ffff) by (nonlinear_arith)
        requires
            -0xffff_ffff <= dlat <= 0xffff_ffff,
    ;
    assert(0 <= dlon * dlon <= 0xffff_ffff * 0xffff_ffff) by (nonlinear_arith)
        requires
            -0xffff_ffff <= dlon <= 0xffff_ffff,
    ;
    assert(0 <= radius * radius <= 0xffff_ffff_ffff_ffff * 0xffff_ffff_ffff_ffff)
        by (nonlinear_arith)
        requires
            0 <= radius <= 0xffff_ffff_ffff_ffff,
    ;
    let gap: u128 = (dlat * dlat + dlon * dlon) as u128;
    gap <= radius * radius
}

/// Index of the first sample at or after `from` that lies within `tolerance`
/// of `p`; the length of `pts` when there is none.
pub open spec fn first_within(pts: Seq<Waypoint>, p: Point, tolerance: int, from: int) -> int
    decreases pts.len() - from,
{
    if from >= pts.len() {
        pts.len() as int
    } else if within(pts[from].point, p, tolerance) {
        from
    } else {
        first_within(pts, p, tolerance, from + 1)
    }
}

/// `first_within` is the least matching index: it is not before `from`, no
/// sample between `from` and it matches, and it matches unless it is the length.
pub proof fn lemma_first_within_is_least(pts: Seq<Waypoint>, p: Point, tolerance: int, from: int)
    requires
        0 <= from <= pts.len(),
    ensures
        from <= first_within(pts, p, tolerance, from) <= pts.len(),
        forall|k: int|
            from <= k < first_within(pts, p, tolerance, from) ==> !within(
                (#[trigger] pts[k]).point,
                p,
                tolerance,
            ),
        first_within(pts, p, tolerance, from) < pts.len() ==> within(
            pts[first_within(pts, p, tolerance, from)].point,
            p,
            tolerance,
        ),
    decreases pts.len() - from,
{
    if from < pts.len() && !within(pts[from].point, p, tolerance) {
        lemma_first_within_is_least(pts, p, tolerance, from + 1);
    }
}

/// Finds the first sample at or after `from` that lies within `tolerance` of `p`.
pub fn find_within(pts: &Vec<Waypoint>, p: Point, tolerance: u64, from: usize) -> (j: usize)
    ensures
        j == first_within(pts@, p, tolerance as int, from as int),
        j <= pts.len(),
        from <= pts.len() ==> from <= j,
{
    if from >= pts.len() {
        return pts.len();
    }
    let mut j: usize = from;
    while j < pts.len()
        invariant
            from <= j <= pts.len(),
            first_within(pts@, p, tolerance as int, from as int) == first_within(
                pts@,
                p,
                tolerance as int,
                j as int,
            ),
        decreases pts.len() - j,
    {
        if is_within(pts[j].point, p, tolerance) {
            return j;
        }
        j = j + 1;
    }
    j
}

// ---------------------------------------------------------------------------
// Correspondence scan
// ---------------------------------------------------------------------------

/// The position that stands for an end of the match that was never recorded.
pub open spec fn origin() -> Point {
    Point { lat: 0, lon: 0 }
}

/// Where a scan stands after some reference samples.
pub struct Scan {
    /// Index of the first candidate sample not yet consumed by a match.
    pub cursor: int,
    /// How many reference samples found a match.
    pub matched: int,
    /// The candidate position matched to the first reference sample.
    pub start: Point,
    /// The candidate position matched to the last reference sample.
    pub end: Point,
}

/// The scan after the first `n` samples of `source`, in order. Each looks for
/// the first sample of `client` from the cursor on that is within `tolerance`
/// of it; where there is one, the cursor moves just past it, so that later
/// matches can only lie further along `client`.
pub open spec fn scan_upto(
    source: Seq<Waypoint>,
    client: Seq<Waypoint>,
    tolerance: int,
    n: int,
) -> Scan
    decreases n,
{
    if n <= 0 {
        Scan { cursor: 0, matched: 0, start: origin(), end: origin() }
    } else {
        let before = scan_upto(source, client, tolerance, n - 1);
        let j = first_within(client, source[n - 1].point, tolerance, before.cursor);
        if j < client.len() {
            Scan {
                cursor: j + 1,
                matched: before.matched + 1,
                start: if n == 1 {
                    client[j].point
                } else {
                    before.start
                },
                end: if n == source.len() {
                    client[j].point
                } else {
                    before.end
                },
            }
        } else {
            before
        }
    }
}

/// Index in `client` of the sample that sample `i` of `source` is matched
/// to; the length of `client` when it finds no match.
pub open spec fn matched_at(
    source: Seq<Waypoint>,
    client: Seq<Waypoint>,
    tolerance: int,
    i: int,
) -> int {
    first_within(
        client,
        source[i].point,
        tolerance,
        scan_upto(source, client, tolerance, i).cursor,
    )
}

/// The share of matched reference samples reaches `percent` hundredths.
pub open spec fn enough(matched: int, total: int, percent: int) -> bool {
    total > 0 && matched * 100 >= percent * total
}

/// Outcome of a scan of `client` against all of `source`: the positions in
/// `client` that matched the first and the last sample of `source`, provided
/// that enough samples of `source` found a match. An end whose reference
/// sample found no match is reported as the origin.
pub open spec fn scan_result(
    source: Seq<Waypoint>,
    client: Seq<Waypoint>,
    percent: int,
    tolerance: int,
) -> Option<(Point, Point)> {
    let done = scan_upto(source, client, tolerance, source.len() as int);
    if enough(done.matched, source.len() as int, percent) {
        Some((done.start, done.end))
    } else {
        None
    }
}

/// The cursor stays inside `client` and no more samples match than were tried.
pub proof fn lemma_scan_bounds(
    source: Seq<Waypoint>,
    client: Seq<Waypoint>,
    tolerance: int,
    n: int,
)
    requires
        0 <= n <= source.len(),
    ensures
        0 <= scan_upto(source, client, tolerance, n).cursor <= client.len(),
        0 <= scan_upto(source, client, tolerance, n).matched <= n,
        scan_upto(source, client, tolerance, n).matched <= scan_upto(
            source,
            client,
            tolerance,
            n,
        ).cursor,
    decreases n,
{
    if n > 0 {
        lemma_scan_bounds(source, client, tolerance, n - 1);
        let before = scan_upto(source, client, tolerance, n - 1);
        lemma_first_within_is_least(client, source[n - 1].point, tolerance, before.cursor);
    }
}

/// Scans `client` for the samples of `source`, in order and never backwards.
pub fn scan(source: &Vec<Waypoint>, client: &Vec<Waypoint>, percent: u32, tolerance: u64) -> (r:
    Option<(Point, Point)>)
    ensures
        r == scan_result(source@, client@, percent as int, tolerance as int),
{
    let n: usize = source.len();
    let mut cursor: usize = 0;
    let mut matched: usize = 0;
    let mut start: Point = Point { lat: 0, lon: 0 };
    let mut end: Point = Point { lat: 0, lon: 0 };
    let mut i: usize = 0;
    while i < n
        invariant
            n == source.len(),
            i <= n,
            cursor <= client.len(),
            matched <= i,
            scan_upto(source@, client@, tolerance as int, i as int) == (Scan {
                cursor: cursor as int,
                matched: matched as int,
                start,
                end,
            }),
        decreases n - i,
    {
        let j: usize = find_within(client, source[i].point, tolerance, cursor);
        if j < client.len() {
            if i == 0 {
                start = client[j].point;
            }
            if i == n - 1 {
                end = client[j].point;
            }
            cursor = j + 1;
            matched = matched + 1;
        }
        i = i + 1;
    }
    if n == 0 {
        return None;
    }
    assert(percent as u128 * n as u128 <= 0xffff_ffff * 0xffff_ffff_ffff_ffff)
        by (nonlinear_arith)
        requires
            0 <= percent <= 0xffff_ffff,
            0 <= n <= 0xffff_ffff_ffff_ffff,
    ;
    if matched as u128 * 100 >= percent as u128 * n as u128 {
        Some((start, end))
    } else {
        None
    }
}

// ---------------------------------------------------------------------------
// Extraction
// ---------------------------------------------------------------------------

/// Index of the first sample at or after `from` whose position is exactly
/// `p`; the length of `pts` when there is none.
pub open spec fn first_at(pts: Seq<Waypoint>, p: Point, from: int) -> int
    decreases pts.len() - from,
{
    if from >= pts.len() {
        pts.len() as int
    } else if pts[from].point == p {
        from
    } else {
        first_at(pts, p, from + 1)
    }
}

/// `first_at` is the least index at or after `from` with that position.
pub proof fn lemma_first_at_is_least(pts: Seq<Waypoint>, p: Point, from: int)
    requires
        0 <= from <= pts.len(),
    ensures
        from <= first_at(pts, p, from) <= pts.len(),
        forall|k: int| from <= k < first_at(pts, p, from) ==> (#[trigger] pts[k]).point != p,
        first_at(pts, p, from) < pts.len() ==> pts[first_at(pts, p, from)].point == p,
    decreases pts.len() - from,
{
    if from < pts.len() && pts[from].point != p {
        lemma_first_at_is_least(pts, p, from + 1);
    }
}

/// An index is `first_at` as soon as it is the least one with that position.
pub proof fn lemma_first_at_unique(pts: Seq<Waypoint>, p: Point, from: int, at: int)
    requires
        0 <= from <= at <= pts.len(),
        forall|k: int| from <= k < at ==> (#[trigger] pts[k]).point != p,
        at < pts.len() ==> pts[at].point == p,
    ensures
        first_at(pts, p, from) == at,
    decreases at - from,
{
    if from < at {
        lemma_first_at_unique(pts, p, from + 1, at);
    }
}

/// Index at which copying starts: the first sample at `start`.
pub open spec fn extract_from(pts: Seq<Waypoint>, start: Point) -> int {
    first_at(pts, start, 0)
}

/// Index just past the last copied sample: copying stops with the first
/// sample at `end` that is not before the start, and runs to the end of the
/// track when there is none.
pub open spec fn extract_to(pts: Seq<Waypoint>, start: Point, end: Point) -> int {
    let stop = first_at(pts, end, extract_from(pts, start));
    if stop < pts.len() {
        stop + 1
    } else {
        pts.len() as int
    }
}

/// The stretch of `pts` from the first sample at `start` through the first
/// sample at `end` that follows it, both included, in order and unchanged.
/// Empty when no sample is at `start`.
pub open spec fn extracted(pts: Seq<Waypoint>, start: Point, end: Point) -> Seq<Waypoint> {
    pts.subrange(extract_from(pts, start), extract_to(pts, start, end))
}

/// Finds the first sample at or after `from` whose position is exactly `p`.
pub fn find_at(pts: &Vec<Waypoint>, p: Point, from: usize) -> (j: usize)
    ensures
        j == first_at(pts@, p, from as int),
        j <= pts.len(),
        from <= pts.len() ==> from <= j,
{
    if from >= pts.len() {
        return pts.len();
    }
    let mut j: usize = from;
    while j < pts.len()
        invariant
            from <= j <= pts.len(),
            first_at(pts@, p, from as int) == first_at(pts@, p, j as int),
        decreases pts.len() - j,
    {
        if pts[j].point.lat == p.lat && pts[j].point.lon == p.lon {
            return j;
        }
        j = j + 1;
    }
    j
}

/// Copies the stretch of `pts` bounded by `start` and `end`.
pub fn extract(pts: &Vec<Waypoint>, start: Point, end: Point) -> (out: Vec<Waypoint>)
    ensures
        out@ == extracted(pts@, start, end),
{
    let from: usize = find_at(pts, start, 0);
    let stop: usize = find_at(pts, end, from);
    let to: usize = if stop < pts.len() {
        stop + 1
    } else {
        pts.len()
    };
    let mut out: Vec<Waypoint> = Vec::new();
    let mut i: usize = from;
    while i < to
        invariant
            from <= i <= to <= pts.len(),
            out@ == pts@.subrange(from as int, i as int),
        decreases to - i,
    {
        out.push(pts[i]);
        i = i + 1;
    }
    out
}

// ---------------------------------------------------------------------------
// Best fit
// ---------------------------------------------------------------------------

/// Tolerance of round `k`: it starts at `tolerance` and grows by `step` each round.
pub open spec fn tolerance_at(tolerance: int, step: int, k: int) -> int {
    tolerance + k * step
}

/// What one round yields: the stretch of `client` between the ends that the
/// scan found, where the scan qualified.
pub open spec fn candidate(
    source: Seq<Waypoint>,
    client: Seq<Waypoint>,
    percent: int,
    tolerance: int,
) -> Option<Seq<Waypoint>> {
    match scan_result(source, client, percent, tolerance) {
        Some((start, end)) => Some(extracted(client, start, end)),
        None => None,
    }
}

/// The candidate of round `k`.
pub open spec fn candidate_at(
    source: Seq<Waypoint>,
    client: Seq<Waypoint>,
    percent: int,
    tolerance: int,
    step: int,
    k: int,
) -> Option<Seq<Waypoint>> {
    candidate(source, client, percent, tolerance_at(tolerance, step, k))
}

/// The stretch kept after the first `rounds` rounds: a round's candidate
/// replaces the kept one when it is the first or has the greater ground length.
pub open spec fn best_after(
    source: Seq<Waypoint>,
    client: Seq<Waypoint>,
    percent: int,
    tolerance: int,
    step: int,
    rounds: int,
) -> Option<Seq<Waypoint>>
    decreases rounds,
{
    if rounds <= 0 {
        None
    } else {
        let kept = best_after(source, client, percent, tolerance, step, rounds - 1);
        match candidate_at(source, client, percent, tolerance, step, rounds - 1) {
            None => kept,
            Some(fresh) => match kept {
                None => Some(fresh),
                Some(old_best) => if length_2d_of(fresh) > length_2d_of(old_best) {
                    Some(fresh)
                } else {
                    Some(old_best)
                },
            },
        }
    }
}

} // verus!
