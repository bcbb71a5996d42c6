//! What holds of the matcher for every pair of tracks.
use vstd::prelude::*;
use crate::matching::{
    best_after, candidate_at, enough, extract_from, extract_to, extracted, first_at,
    lemma_first_at_is_least, lemma_first_at_unique, lemma_first_within_is_least,
    lemma_scan_bounds, matched_at, origin, scan_upto, tolerance_at, within, Scan,
};
use crate::metrics::length_2d_of;
use crate::waypoint::{Point, Waypoint};

verus! {

// ---------------------------------------------------------------------------
// Order of the matches
// ---------------------------------------------------------------------------

/// The cursor of a scan never moves back.
pub proof fn lemma_cursor_never_moves_back(
    source: Seq<Waypoint>,
    client: Seq<Waypoint>,
    tolerance: int,
    n: int,
    m: int,
)
    requires
        0 <= n <= m <= source.len(),
    ensures
        scan_upto(source, client, tolerance, n).cursor <= scan_upto(
            source,
            client,
            tolerance,
            m,
        ).cursor,
        scan_upto(source, client, tolerance, n).matched <= scan_upto(
            source,
            client,
            tolerance,
            m,
        ).matched,
    decreases m - n,
{
    if n < m {
        lemma_cursor_never_moves_back(source, client, tolerance, n, m - 1);
        lemma_scan_bounds(source, client, tolerance, m - 1);
        lemma_first_within_is_least(
            client,
            source[m - 1].point,
            tolerance,
            scan_upto(source, client, tolerance, m - 1).cursor,
        );
    }
}

/// Matches keep the order of the tracks: of two reference samples that both
/// find a match, the later one is matched further along the candidate, and
/// each is matched to a sample within the tolerance.
pub proof fn lemma_matches_keep_order(
    source: Seq<Waypoint>,
    client: Seq<Waypoint>,
    tolerance: int,
    i: int,
    k: int,
)
    requires
        0 <= i < k < source.len(),
        matched_at(source, client, tolerance, i) < client.len(),
        matched_at(source, client, tolerance, k) < client.len(),
    ensures
        0 <= matched_at(source, client, tolerance, i) < matched_at(source, client, tolerance, k),
        within(
            client[matched_at(source, client, tolerance, i)].point,
            source[i].point,
            tolerance,
        ),
        within(
            client[matched_at(source, client, tolerance, k)].point,
            source[k].point,
            tolerance,
        ),
{
    lemma_scan_bounds(source, client, tolerance, i);
    lemma_scan_bounds(source, client, tolerance, k);
    lemma_first_within_is_least(
        client,
        source[i].point,
        tolerance,
        scan_upto(source, client, tolerance, i).cursor,
    );
    lemma_first_within_is_least(
        client,
        source[k].point,
        tolerance,
        scan_upto(source, client, tolerance, k).cursor,
    );
    assert(scan_upto(source, client, tolerance, i + 1).cursor == matched_at(
        source,
        client,
        tolerance,
        i,
    ) + 1);
    lemma_cursor_never_moves_back(source, client, tolerance, i + 1, k);
}

// ---------------------------------------------------------------------------
// A track against itself
// ---------------------------------------------------------------------------

/// Every position is within any tolerance of itself.
pub proof fn lemma_within_itself(p: Point, tolerance: int)
    ensures
        within(p, p, tolerance),
{
    assert(0 <= tolerance * tolerance) by (nonlinear_arith);
}

/// Scanning a track against itself matches every sample to itself, whatever
/// the tolerance.
pub proof fn lemma_scan_itself(pts: Seq<Waypoint>, tolerance: int, n: int)
    requires
        0 <= n <= pts.len(),
    ensures
        scan_upto(pts, pts, tolerance, n) == (Scan {
            cursor: n,
            matched: n,
            start: if n >= 1 {
                pts[0].point
            } else {
                origin()
            },
            end: if n >= 1 && n == pts.len() {
                pts[n - 1].point
            } else {
                origin()
            },
        }),
    decreases n,
{
    if n > 0 {
        lemma_scan_itself(pts, tolerance, n - 1);
        lemma_within_itself(pts[n - 1].point, tolerance);
    }
}

/// A track fits itself. With a threshold of at most one hundred hundredths
/// and at least one round, the search of a non-empty track against itself
/// matches every sample, and keeps the stretch from the first sample through
/// the first sample that stands where the last one does. Where no earlier
/// sample stands there, that stretch is the whole track.
pub proof fn lemma_track_fits_itself(
    pts: Seq<Waypoint>,
    percent: int,
    tolerance: int,
    step: int,
    rounds: int,
)
    requires
        pts.len() >= 1,
        0 <= percent <= 100,
        rounds >= 1,
    ensures
        forall|k: int|
            0 <= k < rounds ==> scan_upto(
                pts,
                pts,
                #[trigger] tolerance_at(tolerance, step, k),
                pts.len() as int,
            ).matched == pts.len(),
        best_after(pts, pts, percent, tolerance, step, rounds) == Some(
            extracted(pts, pts.first().point, pts.last().point),
        ),
        first_at(pts, pts.last().point, 0) == pts.len() - 1 ==> best_after(
            pts,
            pts,
            percent,
            tolerance,
            step,
            rounds,
        ) == Some(pts),
    decreases rounds,
{
    let n = pts.len() as int;
    assert forall|k: int| 0 <= k < rounds implies scan_upto(
        pts,
        pts,
        #[trigger] tolerance_at(tolerance, step, k),
        n,
    ).matched == n && candidate_at(pts, pts, percent, tolerance, step, k) == Some(
        extracted(pts, pts.first().point, pts.last().point),
    ) by {
        lemma_scan_itself(pts, tolerance_at(tolerance, step, k), n);
        assert(n * 100 >= percent * n) by (nonlinear_arith)
            requires
                n >= 1,
                percent <= 100,
        ;
    }
    if rounds > 1 {
        lemma_track_fits_itself(pts, percent, tolerance, step, rounds - 1);
    }
    assert(candidate_at(pts, pts, percent, tolerance, step, rounds - 1) == Some(
        extracted(pts, pts.first().point, pts.last().point),
    ));
    if first_at(pts, pts.last().point, 0) == n - 1 {
        assert(extracted(pts, pts.first().point, pts.last().point) =~= pts);
    }
}

// ---------------------------------------------------------------------------
// Tracks that are nowhere near each other
// ---------------------------------------------------------------------------

/// What is out of reach of a radius is out of reach of every smaller one.
pub proof fn lemma_within_grows(a: Point, b: Point, small: int, large: int)
    requires
        0 <= small <= large,
        within(a, b, small),
    ensures
        within(a, b, large),
{
    assert(small * small <= large * large) by (nonlinear_arith)
        requires
            0 <= small <= large,
    ;
}

/// Where no sample of `client` is within the tolerance of any sample of
/// `source`, the scan matches nothing.
pub proof fn lemma_scan_far_apart(
    source: Seq<Waypoint>,
    client: Seq<Waypoint>,
    tolerance: int,
    n: int,
)
    requires
        0 <= n <= source.len(),
        forall|i: int, j: int|
            0 <= i < source.len() && 0 <= j < client.len() ==> !within(
                (#[trigger] client[j]).point,
                (#[trigger] source[i]).point,
                tolerance,
            ),
    ensures
        scan_upto(source, client, tolerance, n) == (Scan {
            cursor: 0,
            matched: 0,
            start: origin(),
            end: origin(),
        }),
    decreases n,
{
    if n > 0 {
        lemma_scan_far_apart(source, client, tolerance, n - 1);
        lemma_first_within_is_least(client, source[n - 1].point, tolerance, 0);
    }
}

/// Tracks that share no nearby samples do not match. With a threshold above
/// zero, and no sample of the candidate within the radius of the last round
/// of any sample of the reference, no round qualifies.
pub proof fn lemma_far_apart_never_fits(
    source: Seq<Waypoint>,
    client: Seq<Waypoint>,
    percent: int,
    tolerance: int,
    step: int,
    rounds: int,
)
    requires
        percent > 0,
        tolerance >= 0,
        step >= 0,
        forall|i: int, j: int|
            0 <= i < source.len() && 0 <= j < client.len() ==> !within(
                (#[trigger] client[j]).point,
                (#[trigger] source[i]).point,
                tolerance_at(tolerance, step, rounds - 1),
            ),
    ensures
        best_after(source, client, percent, tolerance, step, rounds) is None,
    decreases rounds,
{
    if rounds > 0 {
        let last = tolerance_at(tolerance, step, rounds - 1);
        if rounds > 1 {
            let before = tolerance_at(tolerance, step, rounds - 2);
            assert(0 <= before <= last) by (nonlinear_arith)
                requires
                    tolerance >= 0,
                    step >= 0,
                    rounds >= 2,
                    before == tolerance + (rounds - 2) * step,
                    last == tolerance + (rounds - 1) * step,
            ;
            assert forall|i: int, j: int|
                0 <= i < source.len() && 0 <= j < client.len() implies !within(
                (#[trigger] client[j]).point,
                (#[trigger] source[i]).point,
                before,
            ) by {
                if within(client[j].point, source[i].point, before) {
                    lemma_within_grows(client[j].point, source[i].point, before, last);
                }
            }
            lemma_far_apart_never_fits(source, client, percent, tolerance, step, rounds - 1);
        } else {
            assert(best_after(source, client, percent, tolerance, step, 0) is None);
        }
        lemma_scan_far_apart(source, client, last, source.len() as int);
        let total = source.len() as int;
        assert(total > 0 ==> percent * total > 0) by (nonlinear_arith)
            requires
                percent > 0,
        ;
        assert(!enough(0, total, percent));
        assert(candidate_at(source, client, percent, tolerance, step, rounds - 1) is None);
    }
}

// ---------------------------------------------------------------------------
// Extraction
// ---------------------------------------------------------------------------

/// What is extracted is a stretch of the track: consecutive samples, in
/// order and unchanged.
pub proof fn lemma_extracted_is_a_stretch(pts: Seq<Waypoint>, start: Point, end: Point)
    ensures
        0 <= extract_from(pts, start) <= extract_to(pts, start, end) <= pts.len(),
        extracted(pts, start, end).len() == extract_to(pts, start, end) - extract_from(
            pts,
            start,
        ),
        forall|k: int|
            0 <= k < extracted(pts, start, end).len() ==> #[trigger] extracted(
                pts,
                start,
                end,
            )[k] == pts[extract_from(pts, start) + k],
        extracted(pts, start, end).len() > 0 ==> extracted(pts, start, end).first().point
            == start,
{
    lemma_first_at_is_least(pts, start, 0);
    lemma_first_at_is_least(pts, end, extract_from(pts, start));
}

/// Extraction is idempotent: extracting from the extracted stretch, between
/// the same two positions, gives that stretch again.
pub proof fn lemma_extract_idempotent(pts: Seq<Waypoint>, start: Point, end: Point)
    ensures
        extracted(extracted(pts, start, end), start, end) == extracted(pts, start, end),
{
    let from = extract_from(pts, start);
    let to = extract_to(pts, start, end);
    let stop = first_at(pts, end, from);
    let kept = extracted(pts, start, end);
    lemma_extracted_is_a_stretch(pts, start, end);
    lemma_first_at_is_least(pts, start, 0);
    lemma_first_at_is_least(pts, end, from);
    if kept.len() == 0 {
        assert(extracted(kept, start, end) =~= kept);
    } else {
        lemma_first_at_unique(kept, start, 0, 0);
        if stop < pts.len() {
            assert forall|k: int| 0 <= k < stop - from implies (#[trigger] kept[k]).point
                != end by {
                assert(kept[k] == pts[from + k]);
            }
            assert(kept[stop - from] == pts[from + (stop - from)]);
            lemma_first_at_unique(kept, end, 0, stop - from);
        } else {
            assert forall|k: int| 0 <= k < kept.len() implies (#[trigger] kept[k]).point
                != end by {
                assert(kept[k] == pts[from + k]);
            }
            lemma_first_at_unique(kept, end, 0, kept.len() as int);
        }
        assert(extracted(kept, start, end) =~= kept);
    }
}

// ---------------------------------------------------------------------------
// The stretch that is kept
// ---------------------------------------------------------------------------

/// Round `k` yields the stretch that the search keeps over `rounds` rounds:
/// its candidate is at least as long as every other round's, and longer than
/// that of every round before it.
pub open spec fn is_best_round(
    source: Seq<Waypoint>,
    client: Seq<Waypoint>,
    percent: int,
    tolerance: int,
    step: int,
    rounds: int,
    k: int,
) -> bool {
    &&& 0 <= k < rounds
    &&& candidate_at(source, client, percent, tolerance, step, k) is Some
    &&& forall|j: int|
        0 <= j < rounds && (#[trigger] candidate_at(
            source,
            client,
            percent,
            tolerance,
            step,
            j,
        )) is Some ==> {
            &&& length_2d_of(candidate_at(source, client, percent, tolerance, step, j)->0)
                <= length_2d_of(candidate_at(source, client, percent, tolerance, step, k)->0)
            &&& j < k ==> length_2d_of(
                candidate_at(source, client, percent, tolerance, step, j)->0,
            ) < length_2d_of(candidate_at(source, client, percent, tolerance, step, k)->0)
        }
}

/// The search fails exactly when no round qualifies.
pub proof fn lemma_no_fit_iff_no_candidate(
    source: Seq<Waypoint>,
    client: Seq<Waypoint>,
    percent: int,
    tolerance: int,
    step: int,
    rounds: int,
)
    ensures
        best_after(source, client, percent, tolerance, step, rounds) is None <==> forall|k: int|
            0 <= k < rounds ==> (#[trigger] candidate_at(
                source,
                client,
                percent,
                tolerance,
                step,
                k,
            )) is None,
    decreases rounds,
{
    if rounds > 0 {
        lemma_no_fit_iff_no_candidate(source, client, percent, tolerance, step, rounds - 1);
        if best_after(source, client, percent, tolerance, step, rounds) is None {
            assert forall|k: int| 0 <= k < rounds implies (#[trigger] candidate_at(
                source,
                client,
                percent,
                tolerance,
                step,
                k,
            )) is None by {
                if k < rounds - 1 {
                }
            }
        } else if best_after(source, client, percent, tolerance, step, rounds - 1) is None {
            assert(candidate_at(source, client, percent, tolerance, step, rounds - 1) is Some);
        }
    }
}

/// The stretch that the search keeps is the longest candidate, and the
/// earliest among equally long ones. Gives the round that yields it.
pub proof fn lemma_best_is_longest(
    source: Seq<Waypoint>,
    client: Seq<Waypoint>,
    percent: int,
    tolerance: int,
    step: int,
    rounds: int,
) -> (k: int)
    requires
        best_after(source, client, percent, tolerance, step, rounds) is Some,
    ensures
        is_best_round(source, client, percent, tolerance, step, rounds, k),
        candidate_at(source, client, percent, tolerance, step, k) == best_after(
            source,
            client,
            percent,
            tolerance,
            step,
            rounds,
        ),
    decreases rounds,
{
    let kept = best_after(source, client, percent, tolerance, step, rounds - 1);
    let fresh = candidate_at(source, client, percent, tolerance, step, rounds - 1);
    if kept is None {
        lemma_no_fit_iff_no_candidate(source, client, percent, tolerance, step, rounds - 1);
        rounds - 1
    } else {
        let before = lemma_best_is_longest(
            source,
            client,
            percent,
            tolerance,
            step,
            rounds - 1,
        );
        if fresh is Some && length_2d_of(fresh->0) > length_2d_of(kept->0) {
            rounds - 1
        } else {
            before
        }
    }
}

} // verus!
