//! Matching a candidate track against a reference track.
use vstd::prelude::*;
use crate::gpxfile::GpxFile;
use crate::gpxsource::GpxSource;
use crate::matching::{
    best_after, extract, extracted, scan, scan_result, tolerance_at,
};
use crate::metrics::length_2d_of;
use crate::segments::Segment;
use crate::waypoint::{Point, Waypoint};

verus! {

/// No round of the search found a qualifying match.
#[derive(Clone, Copy, Debug, PartialEq, Eq, Structural)]
pub struct FitError;

/// How a search runs.
#[derive(Clone, Copy, Debug, PartialEq, Eq, Structural)]
pub struct MatchConfig {
    /// Least share of the reference samples that must find a match, in
    /// hundredths: 90 asks for nine in ten.
    pub percent: u32,
    /// Tolerance radius of the first round, in coordinate units.
    pub tolerance: u32,
    /// By how much the radius grows after every round.
    pub step: u32,
    /// How many rounds are run.
    pub iterations: u32,
}

/// A reference track (`file1`), a candidate track (`file2`) and the settings
/// of the search for the stretch of the candidate that follows the reference.
#[derive(Debug)]
pub struct GpxFiles<'a> {
    file1: &'a GpxFile,
    file2: &'a GpxFile,
    config: MatchConfig,
}

impl<'a> GpxFiles<'a> {
    /// Samples of the reference track.
    pub closed spec fn source(&self) -> Seq<Waypoint> {
        self.file1.points@
    }

    /// Samples of the candidate track.
    pub closed spec fn client(&self) -> Seq<Waypoint> {
        self.file2.points@
    }

    /// The settings of the search.
    pub closed spec fn config(&self) -> MatchConfig {
        self.config
    }

    /// The stretch that the search keeps, if any round qualifies.
    pub open spec fn best(&self) -> Option<Seq<Waypoint>> {
        best_after(
            self.source(),
            self.client(),
            self.config().percent as int,
            self.config().tolerance as int,
            self.config().step as int,
            self.config().iterations as int,
        )
    }

    pub fn new(
        file1: &'a GpxFile,
        file2: &'a GpxFile,
        percent: u32,
        tolerance: u32,
        step: u32,
        iterations: u32,
    ) -> (files: Self)
        ensures
            files.source() == file1.points@,
            files.client() == file2.points@,
            files.config() == (MatchConfig { percent, tolerance, step, iterations }),
    {
        Self { file1, file2, config: MatchConfig { percent, tolerance, step, iterations } }
    }

    /// Searches the candidate for the reference over `iterations` rounds.
    /// Round `k` scans with the radius `tolerance + k * step`; where the scan
    /// qualifies, the stretch between the ends it found is extracted, and it
    /// is kept if it is the first or has a greater ground length than the
    /// one kept so far. A round that finds nothing is no failure; only when
    /// no round qualifies is there no match.
    pub fn best_fit(&self) -> (r: Result<GpxFile, FitError>)
        ensures
            r is Ok <==> self.best() is Some,
            r matches Ok(fitted) ==> {
                &&& self.best() == Some(fitted.points@)
                &&& fitted.wf()
                &&& fitted.segments.len() == 1
            },
    {
        let mut fitted: Option<GpxFile> = None;
        let mut fitted_length: u128 = 0;
        let mut radius: u64 = self.config.tolerance as u64;
        let mut k: u32 = 0;
        while k < self.config.iterations
            invariant
                k <= self.config.iterations,
                radius == tolerance_at(self.config.tolerance as int, self.config.step as int, k as int),
                fitted is Some <==> best_after(
                    self.source(),
                    self.client(),
                    self.config.percent as int,
                    self.config.tolerance as int,
                    self.config.step as int,
                    k as int,
                ) is Some,
                fitted matches Some(kept) ==> {
                    &&& best_after(
                        self.source(),
                        self.client(),
                        self.config.percent as int,
                        self.config.tolerance as int,
                        self.config.step as int,
                        k as int,
                    ) == Some(kept.points@)
                    &&& fitted_length == length_2d_of(kept.points@)
                    &&& kept.wf()
                    &&& kept.segments.len() == 1
                },
            decreases self.config.iterations - k,
        {
            match scan(&self.file1.points, &self.file2.points, self.config.percent, radius) {
                Some((a, b)) => {
                    let new_gpx: GpxFile = self.extract_gpx(a, b);
                    let new_length: u128 = new_gpx.length_2d();
                    if fitted.is_none() || new_length > fitted_length {
                        fitted = Some(new_gpx);
                        fitted_length = new_length;
                    }
                },
                None => {},
            }
            assert((k + 1) * self.config.step <= 0xffff_ffff * 0xffff_ffff && (k + 1) * self.config.step == k
                * self.config.step + self.config.step) by (nonlinear_arith)
                requires
                    0 <= k < 0xffff_ffff,
                    0 <= self.config.step <= 0xffff_ffff,
            ;
            radius = radius + self.config.step as u64;
            k = k + 1;
        }
        match fitted {
            Some(file) => Ok(file),
            None => Err(FitError),
        }
    }

    /// Scans the candidate for the samples of the reference, in order and
    /// never backwards, with the tolerance radius of the first round.
    ///
    /// Gives the candidate positions matched to the first and to the last
    /// reference sample when the share of reference samples that found a
    /// match reaches `percent` hundredths; an end whose reference sample
    /// found no match is the origin. An empty reference matches nothing.
    pub fn compare(&self) -> (r: Option<(Point, Point)>)
        ensures
            r == scan_result(
                self.source(),
                self.client(),
                self.config().percent as int,
                self.config().tolerance as int,
            ),
    {
        scan(&self.file1.points, &self.file2.points, self.config.percent, self.config.tolerance as u64)
    }

    /// Copies the stretch of the candidate from its first sample at
    /// `start_point` through the first sample at `end_point` that follows,
    /// both included, into a track of one segment. Positions are compared
    /// exactly. Nothing is copied when no sample is at `start_point`, and the
    /// copy runs to the end of the candidate when no sample from there on is
    /// at `end_point`.
    pub fn extract_gpx(&self, start_point: Point, end_point: Point) -> (file: GpxFile)
        ensures
            file.points@ == extracted(self.client(), start_point, end_point),
            file.wf(),
            file.segments.len() == 1,
    {
        let copied: Vec<Waypoint> = extract(&self.file2.points, start_point, end_point);
        let segment: Segment = Segment::new(&copied);
        let mut segments: Vec<Segment> = Vec::new();
        segments.push(segment);
        let gpx_file: GpxFile = GpxFile::new(&segments);
        assert(gpx_file.points@ =~= copied@) by {
            reveal_with_fuel(crate::gpxfile::flatten_upto, 2);
        }
        gpx_file
    }
}

} // verus!
