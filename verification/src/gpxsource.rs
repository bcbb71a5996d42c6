//! The metrics that every source of samples offers, built once on top of
//! its ordered samples.
use vstd::prelude::*;
use crate::metrics::{
    all_have_elevation, all_have_time, average_speed_of, climb_of, climb_upto, descent_of,
    descent_upto, duration_of, elapsed_upto, elevation_at, lemma_climb_descent_telescope,
    lemma_elapsed_telescopes, length_2d_of, length_2d_upto, length_3d_of, length_3d_upto,
    seconds_in, slope_distance, slope_of, speed, speed_of, whole_seconds, MetricError,
};
use crate::waypoint::Waypoint;

verus! {

/// A sample that was asked for its time has none.
#[derive(Clone, Copy, Debug, PartialEq, Eq, Structural)]
pub struct TimeError;

impl TimeError {
    /// What to tell a user.
    pub fn message(&self) -> (text: String)
        ensures
            text@ == "Unable to parse datetime"@,
    {
        "Unable to parse datetime".to_owned()
    }
}

/// What the speed between a sample and the one recorded after it is: the leg
/// of the second over the whole seconds between them.
pub open spec fn speed_between_of(point1: Waypoint, point2: Waypoint) -> Result<
    int,
    MetricError,
> {
    if point1.time is None || point2.time is None {
        Err(MetricError::MissingTimestamp)
    } else if whole_seconds(point2.time->0 - point1.time->0) == 0 {
        Err(MetricError::DivisionByZero)
    } else {
        Ok(speed_of(point2.leg as int, whole_seconds(point2.time->0 - point1.time->0)))
    }
}

/// A source of recorded samples, made from a `T` by `new`, which gives a `U`.
///
/// An implementation says which samples it holds, in recording order; the
/// metrics are computed from those, treating them as one continuous path.
/// Lengths are millimetres, elevations millimetres, durations whole seconds
/// and speeds millimetres per second.
pub trait GpxSource<T, U> {
    /// The samples, in recording order.
    spec fn track(&self) -> Seq<Waypoint>;

    fn new(source: &T) -> U;

    /// A copy of the samples, in recording order.
    fn points(&self) -> (pts: Vec<Waypoint>)
        ensures
            pts@ == self.track(),
    ;

    /// Ground length: the sum of the legs between consecutive samples. A
    /// source of fewer than two samples has no leg and its length is zero.
    fn length_2d(&self) -> (total: u128)
        ensures
            total == length_2d_of(self.track()),
            self.track().len() <= 1 ==> total == 0,
    {
        let points = self.points();
        let n: usize = points.len();
        if n < 2 {
            return 0;
        }
        let mut total: u128 = 0;
        let mut i: usize = 1;
        while i < n
            invariant
                n == points.len(),
                1 <= i <= n,
                total == length_2d_upto(points@, i as int),
                total <= i * 0xffff_ffff,
            decreases n - i,
        {
            total = total + points[i].leg as u128;
            i = i + 1;
        }
        total
    }

    /// Length along the slope: the sum, over consecutive samples, of the
    /// hypotenuse over the leg and the difference in elevation.
    ///
    /// Fails exactly when there is a pair to difference and some sample
    /// lacks an elevation.
    fn length_3d(&self) -> (r: Result<u128, MetricError>)
        ensures
            r is Ok <==> (self.track().len() < 2 || all_have_elevation(self.track())),
            r matches Ok(total) ==> {
                &&& total == length_3d_of(self.track())
                &&& length_2d_of(self.track()) <= total <= self.track().len() * 0x2_0000_0000
                &&& total <= i128::MAX
            },
            r matches Err(e) ==> e == MetricError::MissingElevation,
    {
        let points = self.points();
        let n: usize = points.len();
        if n < 2 {
            return Ok(0);
        }
        let mut total: u128 = 0;
        let mut i: usize = 1;
        while i < n
            invariant
                n == points.len(),
                1 <= i <= n,
                points@ == self.track(),
                forall|k: int| 0 < k < i ==> (#[trigger] points@[k]).elevation is Some,
                i > 1 ==> points@[0].elevation is Some,
                total == length_3d_upto(points@, i as int),
                length_2d_upto(points@, i as int) <= total <= i * 0x2_0000_0000,
            decreases n - i,
        {
            let d: u64 = match self.distance_3d(&points[i - 1], &points[i]) {
                Ok(d) => d,
                Err(e) => {
                    return Err(e);
                },
            };
            total = total + d as u128;
            i = i + 1;
        }
        Ok(total)
    }

    /// Cumulative climb and descent. Each difference in elevation between
    /// consecutive samples adds to the climb when it is positive and to the
    /// descent when it is negative, so the descent is zero or below.
    ///
    /// Fails exactly when there is a pair to difference and some sample
    /// lacks an elevation.
    fn uphill_downhill(&self) -> (r: Result<(i128, i128), MetricError>)
        ensures
            r is Ok <==> (self.track().len() < 2 || all_have_elevation(self.track())),
            r matches Ok((up, down)) ==> {
                &&& up == climb_of(self.track())
                &&& down == descent_of(self.track())
                &&& up >= 0
                &&& down <= 0
                &&& self.track().len() >= 1 && all_have_elevation(self.track()) ==> up + down
                    == elevation_at(self.track(), self.track().len() - 1) - elevation_at(
                    self.track(),
                    0,
                )
            },
            r matches Err(e) ==> e == MetricError::MissingElevation,
    {
        let points = self.points();
        let n: usize = points.len();
        if n < 2 {
            return Ok((0, 0));
        }
        let mut up: i128 = 0;
        let mut down: i128 = 0;
        let mut i: usize = 1;
        while i < n
            invariant
                n == points.len(),
                1 <= i <= n,
                points@ == self.track(),
                forall|k: int| 0 < k < i ==> (#[trigger] points@[k]).elevation is Some,
                i > 1 ==> points@[0].elevation is Some,
                up == climb_upto(points@, i as int),
                down == descent_upto(points@, i as int),
            decreases n - i,
        {
            let rise: i64 = match self.height_difference(&points[i - 1], &points[i]) {
                Ok(d) => d,
                Err(e) => {
                    return Err(e);
                },
            };
            proof {
                lemma_climb_descent_telescope(points@, i as int);
            }
            if rise > 0 {
                up = up + rise as i128;
            } else if rise < 0 {
                down = down + rise as i128;
            }
            i = i + 1;
        }
        proof {
            lemma_climb_descent_telescope(points@, n as int);
        }
        Ok((up, down))
    }

    /// Duration in whole seconds: the signed time differences between
    /// consecutive samples, summed in milliseconds, then rounded toward zero.
    /// Timestamps that run backwards count against the sum.
    ///
    /// Fails exactly when there is a pair to difference and some sample
    /// lacks a timestamp.
    fn duration(&self) -> (r: Result<i64, MetricError>)
        ensures
            r is Ok <==> (self.track().len() < 2 || all_have_time(self.track())),
            r matches Ok(d) ==> d == duration_of(self.track()),
            r matches Err(e) ==> e == MetricError::MissingTimestamp,
    {
        let points = self.points();
        let n: usize = points.len();
        if n < 2 {
            return Ok(0);
        }
        let mut elapsed: i128 = 0;
        let mut i: usize = 1;
        while i < n
            invariant
                n == points.len(),
                1 <= i <= n,
                points@ == self.track(),
                forall|k: int| 0 < k < i ==> (#[trigger] points@[k]).time is Some,
                i > 1 ==> points@[0].time is Some,
                elapsed == elapsed_upto(points@, i as int),
            decreases n - i,
        {
            let span: i128 = match self.time(&points[i - 1], &points[i]) {
                Ok(ms) => ms,
                Err(_) => {
                    return Err(MetricError::MissingTimestamp);
                },
            };
            proof {
                lemma_elapsed_telescopes(points@, i as int);
            }
            elapsed = elapsed + span;
            i = i + 1;
        }
        proof {
            lemma_elapsed_telescopes(points@, n as int);
        }
        let seconds: i128 = seconds_in(elapsed);
        Ok(seconds as i64)
    }

    /// Elevation of `point2` above `point1`, in millimetres.
    fn height_difference(&self, point1: &Waypoint, point2: &Waypoint) -> (r: Result<
        i64,
        MetricError,
    >)
        ensures
            r is Ok <==> (point1.elevation is Some && point2.elevation is Some),
            r matches Ok(d) ==> d == point2.elevation->0 - point1.elevation->0,
            r matches Err(e) ==> e == MetricError::MissingElevation,
    {
        let height1: i32 = match point1.elevation {
            Some(e) => e,
            None => {
                return Err(MetricError::MissingElevation);
            },
        };
        let height2: i32 = match point2.elevation {
            Some(e) => e,
            None => {
                return Err(MetricError::MissingElevation);
            },
        };
        Ok(height2 as i64 - height1 as i64)
    }

    /// Distance along the slope from `point1` to `point2`, the sample recorded
    /// after it, in millimetres: the hypotenuse over the leg of `point2` and
    /// the difference in elevation, rounded down.
    fn distance_3d(&self, point1: &Waypoint, point2: &Waypoint) -> (r: Result<u64, MetricError>)
        ensures
            r is Ok <==> (point1.elevation is Some && point2.elevation is Some),
            r matches Ok(d) ==> {
                &&& d == slope_of(*point1, *point2)
                &&& point2.leg <= d < 0x2_0000_0000
            },
            r matches Err(e) ==> e == MetricError::MissingElevation,
    {
        let height1: i32 = match point1.elevation {
            Some(e) => e,
            None => {
                return Err(MetricError::MissingElevation);
            },
        };
        let height2: i32 = match point2.elevation {
            Some(e) => e,
            None => {
                return Err(MetricError::MissingElevation);
            },
        };
        Ok(slope_distance(point2.leg, height1, height2))
    }

    /// Time from `point1` to `point2`, in milliseconds; negative when
    /// `point2` is the earlier one.
    fn time(&self, point1: &Waypoint, point2: &Waypoint) -> (r: Result<i128, TimeError>)
        ensures
            r is Ok <==> (point1.time is Some && point2.time is Some),
            r matches Ok(ms) ==> ms == point2.time->0 - point1.time->0,
    {
        let time1: i64 = match point1.time {
            Some(t) => t,
            None => {
                return Err(TimeError);
            },
        };
        let time2: i64 = match point2.time {
            Some(t) => t,
            None => {
                return Err(TimeError);
            },
        };
        Ok(time2 as i128 - time1 as i128)
    }

    /// Average speed in millimetres per second: the length along the slope
    /// over the duration, rounded toward zero. A missing elevation is
    /// reported before a missing timestamp, and that before a duration of
    /// zero seconds.
    fn average_speed(&self) -> (r: Result<i128, MetricError>)
        ensures
            r matches Ok(v) ==> average_speed_of(self.track()) == Ok::<int, MetricError>(
                v as int,
            ),
            r matches Err(e) ==> average_speed_of(self.track()) == Err::<int, MetricError>(e),
    {
        let distance: u128 = match self.length_3d() {
            Ok(l) => l,
            Err(e) => {
                return Err(e);
            },
        };
        let seconds: i64 = match self.duration() {
            Ok(d) => d,
            Err(e) => {
                return Err(e);
            },
        };
        speed(distance, seconds)
    }

    /// Speed in millimetres per second from `point1` to `point2`, the sample
    /// recorded after it: the leg of `point2` over the whole seconds between
    /// the two, rounded toward zero.
    fn speed_between(&self, point1: &Waypoint, point2: &Waypoint) -> (r: Result<
        i128,
        MetricError,
    >)
        ensures
            r matches Ok(v) ==> speed_between_of(*point1, *point2) == Ok::<int, MetricError>(
                v as int,
            ),
            r matches Err(e) ==> speed_between_of(*point1, *point2) == Err::<int, MetricError>(
                e,
            ),
    {
        let span: i128 = match self.time(point1, point2) {
            Ok(ms) => ms,
            Err(_) => {
                return Err(MetricError::MissingTimestamp);
            },
        };
        let seconds: i128 = seconds_in(span);
        speed(point2.leg as u128, seconds as i64)
    }
}

} // verus!
