//! Track metrics over an ordered sequence of samples.
//!
//! A track is treated as one continuous path: every metric differences each
//! sample with the one before it, whatever segment either belongs to.
use vstd::prelude::*;
use crate::waypoint::Waypoint;

verus! {

/// Why a metric could not be computed.
#[derive(Clone, Copy, Debug, PartialEq, Eq, Structural)]
pub enum MetricError {
    /// A sample that the metric reads has no elevation.
    MissingElevation,
    /// A sample that the metric reads has no timestamp.
    MissingTimestamp,
    /// A rate was asked for over a time span of zero seconds.
    DivisionByZero,
}

// ---------------------------------------------------------------------------
// Ground length
// ---------------------------------------------------------------------------

/// Ground length, in millimetres, of the path through the first `n` samples:
/// the sum of the legs of samples `1 .. n`.
pub open spec fn length_2d_upto(pts: Seq<Waypoint>, n: int) -> int
    decreases n,
{
    if n <= 1 {
        0
    } else {
        length_2d_upto(pts, n - 1) + pts[n - 1].leg
    }
}

/// Ground length of the whole path, in millimetres.
pub open spec fn length_2d_of(pts: Seq<Waypoint>) -> int {
    length_2d_upto(pts, pts.len() as int)
}

// ---------------------------------------------------------------------------
// Elevation
// ---------------------------------------------------------------------------

/// Every sample carries an elevation.
pub open spec fn all_have_elevation(pts: Seq<Waypoint>) -> bool {
    forall|i: int| 0 <= i < pts.len() ==> (#[trigger] pts[i]).elevation is Some
}

/// Elevation of sample `i`, in millimetres.
pub open spec fn elevation_at(pts: Seq<Waypoint>, i: int) -> int {
    pts[i].elevation->0 as int
}

/// Elevation gained from sample `i - 1` to sample `i`; negative when the path drops.
pub open spec fn rise_at(pts: Seq<Waypoint>, i: int) -> int {
    elevation_at(pts, i) - elevation_at(pts, i - 1)
}

/// Sum of the positive rises between consecutive samples among the first `n`.
pub open spec fn climb_upto(pts: Seq<Waypoint>, n: int) -> int
    decreases n,
{
    if n <= 1 {
        0
    } else if rise_at(pts, n - 1) > 0 {
        climb_upto(pts, n - 1) + rise_at(pts, n - 1)
    } else {
        climb_upto(pts, n - 1)
    }
}

/// Sum of the negative rises between consecutive samples among the first `n`:
/// a signed residual, zero or below.
pub open spec fn descent_upto(pts: Seq<Waypoint>, n: int) -> int
    decreases n,
{
    if n <= 1 {
        0
    } else if rise_at(pts, n - 1) < 0 {
        descent_upto(pts, n - 1) + rise_at(pts, n - 1)
    } else {
        descent_upto(pts, n - 1)
    }
}

pub open spec fn climb_of(pts: Seq<Waypoint>) -> int {
    climb_upto(pts, pts.len() as int)
}

pub open spec fn descent_of(pts: Seq<Waypoint>) -> int {
    descent_upto(pts, pts.len() as int)
}

/// Climb and descent telescope: over any non-empty prefix whose samples all
/// carry an elevation they add up to the elevation of its last sample minus
/// that of its first, climb is never negative and descent never positive.
pub proof fn lemma_climb_descent_telescope(pts: Seq<Waypoint>, n: int)
    requires
        1 <= n <= pts.len(),
    ensures
        climb_upto(pts, n) + descent_upto(pts, n) == elevation_at(pts, n - 1) - elevation_at(
            pts,
            0,
        ),
        0 <= climb_upto(pts, n) <= (n - 1) * 0xffff_ffff,
        -(n - 1) * 0xffff_ffff <= descent_upto(pts, n) <= 0,
    decreases n,
{
    if n > 1 {
        lemma_climb_descent_telescope(pts, n - 1);
    }
}

// ---------------------------------------------------------------------------
// Time
// ---------------------------------------------------------------------------

/// Every sample carries a timestamp.
pub open spec fn all_have_time(pts: Seq<Waypoint>) -> bool {
    forall|i: int| 0 <= i < pts.len() ==> (#[trigger] pts[i]).time is Some
}

/// Timestamp of sample `i`, in milliseconds.
pub open spec fn time_at(pts: Seq<Waypoint>, i: int) -> int {
    pts[i].time->0 as int
}

/// Sum of the signed time differences between consecutive samples among the
/// first `n`, in milliseconds.
pub open spec fn elapsed_upto(pts: Seq<Waypoint>, n: int) -> int
    decreases n,
{
    if n <= 1 {
        0
    } else {
        elapsed_upto(pts, n - 1) + (time_at(pts, n - 1) - time_at(pts, n - 2))
    }
}

/// Whole seconds in a span of `ms` milliseconds, rounded toward zero.
pub open spec fn whole_seconds(ms: int) -> int {
    if ms >= 0 {
        ms / 1000
    } else {
        -((-ms) / 1000)
    }
}

/// Duration of the path in whole seconds.
pub open spec fn duration_of(pts: Seq<Waypoint>) -> int {
    whole_seconds(elapsed_upto(pts, pts.len() as int))
}

/// The summed differences telescope to the last timestamp minus the first.
pub proof fn lemma_elapsed_telescopes(pts: Seq<Waypoint>, n: int)
    requires
        1 <= n <= pts.len(),
    ensures
        elapsed_upto(pts, n) == time_at(pts, n - 1) - time_at(pts, 0),
    decreases n,
{
    if n > 1 {
        lemma_elapsed_telescopes(pts, n - 1);
    }
}

/// A path of two samples lasts from the first timestamp to the second, in
/// whole seconds; the result is negative when the second is the earlier one.
pub proof fn lemma_duration_of_pair(a: Waypoint, b: Waypoint)
    requires
        a.time is Some,
        b.time is Some,
    ensures
        duration_of(seq![a, b]) == whole_seconds(b.time->0 - a.time->0),
{
    let pts = seq![a, b];
    lemma_elapsed_telescopes(pts, 2);
}

/// Whole seconds, rounded toward zero, in a span of milliseconds.
pub fn seconds_in(ms: i128) -> (s: i128)
    ensures
        s == whole_seconds(ms as int),
{
    ms / 1000
}

// ---------------------------------------------------------------------------
// Length along the slope
// ---------------------------------------------------------------------------

/// `r` is the integer square root of `n`: the largest number whose square
/// does not exceed `n`.
pub open spec fn is_floor_sqrt(n: int, r: int) -> bool {
    0 <= r && r * r <= n < (r + 1) * (r + 1)
}

/// The integer square root of `n`, for `n` of zero or more.
pub open spec fn floor_sqrt(n: int) -> int {
    choose|r: int| is_floor_sqrt(n, r)
}

/// A number has at most one integer square root.
pub proof fn lemma_floor_sqrt_unique(n: int, a: int, b: int)
    requires
        is_floor_sqrt(n, a),
        is_floor_sqrt(n, b),
    ensures
        a == b,
{
    if a < b {
        assert((a + 1) * (a + 1) <= b * b) by (nonlinear_arith)
            requires
                0 <= a,
                a + 1 <= b,
        ;
    } else if b < a {
        assert((b + 1) * (b + 1) <= a * a) by (nonlinear_arith)
            requires
                0 <= b,
                b + 1 <= a,
        ;
    }
}

/// Integer square root by bisection.
pub fn isqrt(n: u128) -> (r: u64)
    ensures
        is_floor_sqrt(n as int, r as int),
        r == floor_sqrt(n as int),
{
    let mut lo: u128 = 0;
    let mut hi: u128 = 0x1_0000_0000_0000_0000;
    assert(0x1_0000_0000_0000_0000 * 0x1_0000_0000_0000_0000
        == 0x1_0000_0000_0000_0000_0000_0000_0000_0000) by (nonlinear_arith);
    while hi - lo > 1
        invariant
            lo < hi <= 0x1_0000_0000_0000_0000,
            lo * lo <= n < hi * hi,
        decreases hi - lo,
    {
        let mid: u128 = lo + (hi - lo) / 2;
        assert(mid * mid <= 0xffff_ffff_ffff_ffff * 0xffff_ffff_ffff_ffff) by (nonlinear_arith)
            requires
                0 <= mid <= 0xffff_ffff_ffff_ffff,
        ;
        if mid * mid <= n {
            lo = mid;
        } else {
            hi = mid;
        }
    }
    proof {
        assert(is_floor_sqrt(n as int, lo as int));
        lemma_floor_sqrt_unique(n as int, lo as int, floor_sqrt(n as int));
    }
    lo as u64
}

/// Distance along the slope, in millimetres, from a sample to the one
/// recorded after it: the hypotenuse over the leg of the second sample and
/// the difference of the two elevations, rounded down.
pub open spec fn slope_of(a: Waypoint, b: Waypoint) -> int {
    floor_sqrt(
        b.leg * b.leg + (b.elevation->0 - a.elevation->0) * (b.elevation->0 - a.elevation->0),
    )
}

/// Distance along the slope from sample `i - 1` to sample `i`.
pub open spec fn slope_at(pts: Seq<Waypoint>, i: int) -> int {
    slope_of(pts[i - 1], pts[i])
}

/// Length along the slope of the path through the first `n` samples.
pub open spec fn length_3d_upto(pts: Seq<Waypoint>, n: int) -> int
    decreases n,
{
    if n <= 1 {
        0
    } else {
        length_3d_upto(pts, n - 1) + slope_at(pts, n - 1)
    }
}

/// Length along the slope of the whole path, in millimetres.
pub open spec fn length_3d_of(pts: Seq<Waypoint>) -> int {
    length_3d_upto(pts, pts.len() as int)
}

/// Distance along the slope between a sample and the one recorded after it,
/// from the leg and the two elevations.
pub fn slope_distance(leg: u32, from: i32, to: i32) -> (d: u64)
    ensures
        d == floor_sqrt(leg * leg + (to - from) * (to - from)),
        leg <= d < 0x2_0000_0000,
{
    let rise: i128 = to as i128 - from as i128;
    let run: u128 = leg as u128;
    assert(0 <= rise * rise <= 0xffff_ffff * 0xffff_ffff) by (nonlinear_arith)
        requires
            -0xffff_ffff <= rise <= 0xffff_ffff,
    ;
    assert(0 <= run * run <= 0xffff_ffff * 0xffff_ffff) by (nonlinear_arith)
        requires
            0 <= run <= 0xffff_ffff,
    ;
    let squares: u128 = run * run + (rise * rise) as u128;
    let d: u64 = isqrt(squares);
    assert(run <= d < 0x2_0000_0000) by (nonlinear_arith)
        requires
            0 <= run,
            0 <= d,
            run * run <= squares,
            d * d <= squares,
            squares < (d + 1) * (d + 1),
            squares <= 2 * (0xffff_ffff * 0xffff_ffff),
    ;
    d
}

// ---------------------------------------------------------------------------
// Speed
// ---------------------------------------------------------------------------

/// Millimetres per second over `length` millimetres in `seconds` seconds,
/// rounded toward zero; negative when the time span is. `seconds` is not zero.
pub open spec fn speed_of(length: int, seconds: int) -> int {
    if seconds > 0 {
        length / seconds
    } else {
        -(length / (-seconds))
    }
}

/// Divides a length in millimetres by a time span in seconds. The length
/// must fit the signed result.
pub(crate) fn speed(length: u128, seconds: i64) -> (r: Result<i128, MetricError>)
    requires
        length <= i128::MAX,
    ensures
        r is Ok <==> seconds != 0,
        r matches Ok(v) ==> v == speed_of(length as int, seconds as int),
        r matches Err(e) ==> e == MetricError::DivisionByZero,
{
    if seconds == 0 {
        Err(MetricError::DivisionByZero)
    } else if seconds > 0 {
        Ok((length / (seconds as u128)) as i128)
    } else {
        let span: u128 = (-(seconds as i128)) as u128;
        Ok(-((length / span) as i128))
    }
}

/// What the average speed of the path is, from the outcome of its length
/// along the slope and of its duration: a missing elevation is reported
/// first, then a missing timestamp, then a duration of zero.
pub open spec fn average_speed_of(pts: Seq<Waypoint>) -> Result<int, MetricError> {
    if pts.len() >= 2 && !all_have_elevation(pts) {
        Err(MetricError::MissingElevation)
    } else if pts.len() >= 2 && !all_have_time(pts) {
        Err(MetricError::MissingTimestamp)
    } else if duration_of(pts) == 0 {
        Err(MetricError::DivisionByZero)
    } else {
        Ok(speed_of(length_3d_of(pts), duration_of(pts)))
    }
}

} // verus!
