use gpx_compare::gpxfile::GpxFile;
use gpx_compare::gpxfiles::{FitError, GpxFiles};
use gpx_compare::gpxsource::GpxSource;
use gpx_compare::matching::{extract, find_at, find_within, is_within, scan};
use gpx_compare::segments::Segment;
use gpx_compare::waypoint::{Point, Waypoint};

/// One degree, in coordinate units.
const DEGREE: i32 = 10_000_000;

/// Ground distance of one degree of longitude on the equator, in millimetres.
const DEGREE_LEG: u32 = 111_194_927;

fn at(lat: i32, lon: i32) -> Point {
    Point { lat, lon }
}

fn sample(lat: i32, lon: i32, leg: u32) -> Waypoint {
    Waypoint { point: at(lat, lon), elevation: None, time: None, leg }
}

fn track(points: Vec<Waypoint>) -> GpxFile {
    GpxFile::new(&vec![Segment::new(&points)])
}

fn places(points: &Vec<Waypoint>) -> Vec<(i32, i32)> {
    points.iter().map(|w| (w.point.lat, w.point.lon)).collect()
}

fn reference() -> Vec<Waypoint> {
    vec![
        sample(0, 0, 0),
        sample(0, DEGREE, DEGREE_LEG),
        sample(0, 2 * DEGREE, DEGREE_LEG),
    ]
}

#[test]
fn nearness_is_by_squared_planar_difference() {
    assert!(is_within(at(0, 0), at(3, 4), 5));
    assert!(!is_within(at(0, 0), at(3, 4), 4));
    assert!(is_within(at(7, -7), at(7, -7), 0));
    assert!(!is_within(at(7, -7), at(7, -6), 0));
    assert!(is_within(at(-3, -4), at(0, 0), 5));
    assert!(is_within(at(i32::MIN, i32::MIN), at(i32::MAX, i32::MAX), u64::MAX));
    assert!(!is_within(at(i32::MIN, i32::MIN), at(i32::MAX, i32::MAX), 6_074_000_998));
    assert!(is_within(at(i32::MIN, i32::MIN), at(i32::MAX, i32::MAX), 6_074_000_999));
}

#[test]
fn find_within_gives_the_first_from_the_cursor() {
    let pts = vec![sample(0, 0, 0), sample(0, 10, 0), sample(0, 1, 0), sample(0, 0, 0)];
    assert_eq!(find_within(&pts, at(0, 0), 1, 0), 0);
    assert_eq!(find_within(&pts, at(0, 0), 1, 1), 2);
    assert_eq!(find_within(&pts, at(0, 0), 0, 1), 3);
    assert_eq!(find_within(&pts, at(0, 0), 0, 4), 4);
    assert_eq!(find_within(&pts, at(0, 0), 0, 9), 4);
    assert_eq!(find_within(&pts, at(5, 5), 2, 0), 4);
}

#[test]
fn find_at_compares_positions_exactly() {
    let pts = vec![sample(0, 0, 0), sample(0, 1, 0), sample(0, 0, 0)];
    assert_eq!(find_at(&pts, at(0, 0), 0), 0);
    assert_eq!(find_at(&pts, at(0, 0), 1), 2);
    assert_eq!(find_at(&pts, at(0, 1), 0), 1);
    assert_eq!(find_at(&pts, at(0, 2), 0), 3);
    assert_eq!(find_at(&pts, at(0, 0), 7), 3);
}

#[test]
fn scan_finds_the_reference_at_the_start_of_the_candidate() {
    let source = reference();
    let mut client = reference();
    client.push(sample(10 * DEGREE, 10 * DEGREE, 1_000_000));
    assert_eq!(scan(&source, &client, 90, 1_000), Some((at(0, 0), at(0, 2 * DEGREE))));
}

#[test]
fn scan_of_an_empty_reference_matches_nothing() {
    let client = reference();
    assert_eq!(scan(&vec![], &client, 0, 1_000), None);
    assert_eq!(scan(&vec![], &client, 90, u64::MAX), None);
    assert_eq!(scan(&vec![], &vec![], 0, 0), None);
}

#[test]
fn scan_of_an_empty_candidate_matches_nothing() {
    assert_eq!(scan(&reference(), &vec![], 1, u64::MAX), None);
}

#[test]
fn scan_accepts_a_share_that_equals_the_threshold() {
    // two of four reference samples are found
    let source = vec![sample(0, 0, 0), sample(50, 50, 0), sample(0, 10, 0), sample(90, 90, 0)];
    let client = vec![sample(0, 0, 0), sample(0, 10, 0)];
    assert_eq!(scan(&source, &client, 50, 1), Some((at(0, 0), at(0, 0))));
    assert_eq!(scan(&source, &client, 51, 1), None);
    assert_eq!(scan(&source, &client, 0, 1), Some((at(0, 0), at(0, 0))));
}

#[test]
fn scan_needs_every_sample_for_a_threshold_of_one_hundred() {
    let source = reference();
    let client = reference();
    assert_eq!(scan(&source, &client, 100, 0), Some((at(0, 0), at(0, 2 * DEGREE))));
    let mut shorter = reference();
    shorter.pop();
    assert_eq!(scan(&source, &shorter, 100, 0), None);
    assert_eq!(scan(&source, &client, 101, 0), None);
}

#[test]
fn scan_never_goes_backwards() {
    // the candidate runs the other way: only one reference sample can match
    let source = vec![sample(0, 0, 0), sample(0, 100, 0), sample(0, 200, 0)];
    let client = vec![sample(0, 200, 0), sample(0, 100, 0), sample(0, 0, 0)];
    assert_eq!(scan(&source, &client, 34, 1), None);
    // the first reference sample consumes the whole candidate
    assert_eq!(scan(&source, &client, 33, 1), Some((at(0, 0), at(0, 0))));
}

#[test]
fn scan_uses_each_candidate_sample_once() {
    let source = vec![sample(0, 0, 0), sample(0, 0, 0)];
    let once = vec![sample(0, 0, 0)];
    assert_eq!(scan(&source, &once, 100, 5), None);
    let twice = vec![sample(0, 0, 0), sample(0, 3, 0)];
    assert_eq!(scan(&source, &twice, 100, 5), Some((at(0, 0), at(0, 3))));
}

#[test]
fn scan_takes_the_first_candidate_within_the_tolerance() {
    let source = vec![sample(0, 0, 0), sample(0, 20, 0)];
    let client = vec![sample(0, 100, 0), sample(3, 4, 0), sample(0, 0, 0), sample(0, 20, 0)];
    assert_eq!(scan(&source, &client, 100, 5), Some((at(3, 4), at(0, 20))));
    assert_eq!(scan(&source, &client, 100, 4), Some((at(0, 0), at(0, 20))));
}

#[test]
fn scan_reports_an_unmatched_end_as_the_origin() {
    let source = vec![sample(50, 50, 0), sample(70, 70, 0), sample(90, 90, 0)];
    let client = vec![sample(70, 70, 0)];
    assert_eq!(scan(&source, &client, 30, 0), Some((at(0, 0), at(0, 0))));
    let tail = vec![sample(70, 70, 0), sample(90, 90, 0)];
    assert_eq!(scan(&source, &tail, 30, 0), Some((at(0, 0), at(90, 90))));
    let head = vec![sample(50, 50, 0), sample(70, 70, 0)];
    assert_eq!(scan(&source, &head, 30, 0), Some((at(50, 50), at(0, 0))));
}

#[test]
fn scan_of_a_single_sample_records_it_as_both_ends() {
    let source = vec![sample(5, 5, 0)];
    let client = vec![sample(1, 1, 0), sample(5, 6, 0)];
    assert_eq!(scan(&source, &client, 100, 1), Some((at(5, 6), at(5, 6))));
}

#[test]
fn extract_copies_from_start_through_end() {
    let pts = vec![
        Waypoint { point: at(0, 0), elevation: Some(1), time: Some(10), leg: 5 },
        Waypoint { point: at(0, 1), elevation: None, time: Some(20), leg: 6 },
        Waypoint { point: at(0, 2), elevation: Some(3), time: None, leg: 7 },
        Waypoint { point: at(0, 3), elevation: Some(4), time: Some(40), leg: 8 },
    ];
    assert_eq!(extract(&pts, at(0, 1), at(0, 2)), pts[1..3].to_vec());
    assert_eq!(extract(&pts, at(0, 0), at(0, 3)), pts);
    assert_eq!(extract(&pts, at(0, 3), at(0, 3)), pts[3..].to_vec());
}

#[test]
fn extract_without_a_start_copies_nothing() {
    let pts = vec![sample(0, 0, 0), sample(0, 1, 0)];
    assert_eq!(extract(&pts, at(9, 9), at(0, 1)), vec![]);
    assert_eq!(extract(&vec![], at(0, 0), at(0, 0)), vec![]);
}

#[test]
fn extract_without_an_end_runs_to_the_end() {
    let pts = vec![sample(0, 0, 0), sample(0, 1, 0), sample(0, 2, 0)];
    assert_eq!(places(&extract(&pts, at(0, 1), at(9, 9))), vec![(0, 1), (0, 2)]);
    // an end that only stands before the start is not seen
    assert_eq!(places(&extract(&pts, at(0, 1), at(0, 0))), vec![(0, 1), (0, 2)]);
}

#[test]
fn extract_uses_the_first_start_and_the_first_end_after_it() {
    let pts = vec![
        sample(0, 5, 1),
        sample(0, 0, 2),
        sample(0, 5, 3),
        sample(0, 0, 4),
        sample(0, 5, 5),
    ];
    assert_eq!(extract(&pts, at(0, 0), at(0, 5)), pts[1..3].to_vec());
    assert_eq!(extract(&pts, at(0, 5), at(0, 0)), pts[0..2].to_vec());
}

#[test]
fn extract_of_equal_ends_copies_one_sample() {
    let pts = vec![sample(0, 1, 1), sample(0, 0, 2), sample(0, 1, 3), sample(0, 0, 4)];
    assert_eq!(extract(&pts, at(0, 0), at(0, 0)), pts[1..2].to_vec());
}

#[test]
fn extract_is_idempotent() {
    let pts = vec![
        sample(0, 5, 1),
        sample(0, 0, 2),
        sample(0, 7, 3),
        sample(0, 5, 4),
        sample(0, 0, 5),
    ];
    for (start, end) in [
        (at(0, 0), at(0, 5)),
        (at(0, 5), at(0, 0)),
        (at(0, 7), at(9, 9)),
        (at(9, 9), at(0, 0)),
        (at(0, 0), at(0, 0)),
    ] {
        let once = extract(&pts, start, end);
        assert_eq!(extract(&once, start, end), once);
    }
}

#[test]
fn best_fit_extracts_the_reference_from_a_longer_candidate() {
    let source = track(reference());
    let mut points = reference();
    points.push(sample(10 * DEGREE, 10 * DEGREE, 1_000_000));
    let client = track(points);
    let files = GpxFiles::new(&source, &client, 90, 1_000, 0, 1);
    assert_eq!(files.compare(), Some((at(0, 0), at(0, 2 * DEGREE))));
    let fitted = files.best_fit().unwrap();
    assert_eq!(places(&fitted.points), vec![(0, 0), (0, DEGREE), (0, 2 * DEGREE)]);
    assert_eq!(fitted.points, reference());
    assert_eq!(fitted.segments.len(), 1);
    assert_eq!(fitted.segments[0].points(), fitted.points);
    assert_eq!(fitted.length_2d(), source.length_2d());
    assert_eq!(fitted.length_2d(), 2 * 111_194_927);
}

#[test]
fn best_fit_of_distant_tracks_finds_no_match() {
    let source = track(reference());
    let client = track(vec![
        sample(5 * DEGREE, 5 * DEGREE, 0),
        sample(6 * DEGREE, 6 * DEGREE, 156_000_000),
    ]);
    // 0.0001 degree, growing by 0.01 degree over three rounds
    let files = GpxFiles::new(&source, &client, 90, 1_000, 100_000, 3);
    assert_eq!(files.compare(), None);
    assert_eq!(files.best_fit(), Err(FitError));
}

#[test]
fn best_fit_of_a_track_against_itself_is_the_whole_track() {
    let points = vec![
        Waypoint { point: at(1, 1), elevation: Some(5), time: Some(0), leg: 0 },
        Waypoint { point: at(2, 2), elevation: Some(6), time: Some(1_000), leg: 10 },
        Waypoint { point: at(2, 2), elevation: Some(7), time: Some(2_000), leg: 0 },
        Waypoint { point: at(3, 3), elevation: Some(8), time: Some(3_000), leg: 12 },
    ];
    let file = track(points.clone());
    for (tolerance, step, iterations) in [(0, 0, 1), (1_000, 0, 1), (0, 7, 4), (u32::MAX, u32::MAX, 2)] {
        let files = GpxFiles::new(&file, &file, 99, tolerance, step, iterations);
        assert_eq!(files.compare(), Some((at(1, 1), at(3, 3))));
        assert_eq!(files.best_fit().unwrap().points, points);
    }
    let files = GpxFiles::new(&file, &file, 100, 0, 0, 1);
    assert_eq!(files.best_fit().unwrap().points, points);
}

#[test]
fn best_fit_of_a_loop_against_itself_stops_at_the_first_end() {
    // the track ends where it began: the stretch stops at once
    let points = vec![sample(0, 0, 0), sample(0, 1, 10), sample(0, 0, 10)];
    let file = track(points.clone());
    let files = GpxFiles::new(&file, &file, 90, 0, 0, 1);
    assert_eq!(files.compare(), Some((at(0, 0), at(0, 0))));
    assert_eq!(files.best_fit().unwrap().points, points[..1].to_vec());
}

#[test]
fn best_fit_without_rounds_finds_no_match() {
    let file = track(reference());
    let files = GpxFiles::new(&file, &file, 1, 1_000, 1_000, 0);
    assert_eq!(files.best_fit(), Err(FitError));
}

#[test]
fn best_fit_of_an_empty_reference_finds_no_match() {
    let source = track(vec![]);
    let client = track(reference());
    let files = GpxFiles::new(&source, &client, 0, u32::MAX, u32::MAX, 5);
    assert_eq!(files.compare(), None);
    assert_eq!(files.best_fit(), Err(FitError));
}

#[test]
fn best_fit_goes_on_after_a_round_without_a_match() {
    let source = track(vec![sample(0, 0, 0), sample(0, 100, 50)]);
    let client = track(vec![sample(0, 3, 0), sample(0, 103, 60), sample(0, 500, 70)]);
    // radius 1, 2, 3: only the third round reaches
    let files = GpxFiles::new(&source, &client, 100, 1, 1, 3);
    assert_eq!(files.compare(), None);
    let fitted = files.best_fit().unwrap();
    assert_eq!(places(&fitted.points), vec![(0, 3), (0, 103)]);
    assert_eq!(fitted.length_2d(), 60);
    let too_few = GpxFiles::new(&source, &client, 100, 1, 1, 2);
    assert_eq!(too_few.best_fit(), Err(FitError));
}

#[test]
fn best_fit_prefers_the_longer_stretch() {
    let source = track(vec![sample(0, 0, 0), sample(0, 100, 50)]);
    // a wider radius lets the first reference sample match an earlier candidate sample
    let client = track(vec![sample(0, 10, 0), sample(0, 0, 25), sample(0, 100, 60)]);
    let narrow = GpxFiles::new(&source, &client, 100, 0, 10, 1);
    assert_eq!(places(&narrow.best_fit().unwrap().points), vec![(0, 0), (0, 100)]);
    let wide = GpxFiles::new(&source, &client, 100, 0, 10, 2);
    let fitted = wide.best_fit().unwrap();
    assert_eq!(places(&fitted.points), vec![(0, 10), (0, 0), (0, 100)]);
    assert_eq!(fitted.length_2d(), 85);
}

#[test]
fn best_fit_keeps_the_earlier_of_equally_long_stretches() {
    let source = track(vec![sample(0, 0, 0), sample(0, 100, 50)]);
    // the extra sample adds no ground length
    let client = track(vec![sample(0, 10, 0), sample(0, 0, 0), sample(0, 100, 60)]);
    let files = GpxFiles::new(&source, &client, 100, 0, 10, 2);
    let fitted = files.best_fit().unwrap();
    assert_eq!(places(&fitted.points), vec![(0, 0), (0, 100)]);
    assert_eq!(fitted.length_2d(), 60);
}

#[test]
fn best_fit_keeps_a_longer_stretch_from_an_earlier_round() {
    let source = track(vec![sample(0, 0, 0), sample(0, 100, 50)]);
    // with the wider radius the last reference sample stops at an earlier candidate sample
    let client = track(vec![sample(0, 0, 0), sample(0, 95, 40), sample(0, 100, 7)]);
    let files = GpxFiles::new(&source, &client, 100, 0, 5, 2);
    let fitted = files.best_fit().unwrap();
    assert_eq!(places(&fitted.points), vec![(0, 0), (0, 95), (0, 100)]);
    assert_eq!(fitted.length_2d(), 47);
    let second_only = GpxFiles::new(&source, &client, 100, 5, 5, 1);
    assert_eq!(places(&second_only.best_fit().unwrap().points), vec![(0, 0), (0, 95)]);
}

#[test]
fn best_fit_extracts_nothing_when_the_start_is_unmatched() {
    let source = track(vec![sample(50, 50, 0), sample(70, 70, 10), sample(90, 90, 10)]);
    let client = track(vec![sample(70, 70, 0), sample(90, 90, 10)]);
    let files = GpxFiles::new(&source, &client, 60, 0, 0, 1);
    assert_eq!(files.compare(), Some((at(0, 0), at(90, 90))));
    let fitted = files.best_fit().unwrap();
    assert_eq!(fitted.points, vec![]);
    assert_eq!(fitted.length_2d(), 0);
}

#[test]
fn best_fit_runs_with_the_largest_settings() {
    let file = track(reference());
    let files = GpxFiles::new(&file, &file, u32::MAX, u32::MAX, u32::MAX, 3);
    assert_eq!(files.best_fit(), Err(FitError));
    let files = GpxFiles::new(&file, &file, 100, u32::MAX, u32::MAX, 3);
    assert_eq!(files.best_fit().unwrap().points, reference());
}

#[test]
fn extract_gpx_gives_a_track_of_one_segment() {
    let source = track(vec![]);
    let client = track(reference());
    let files = GpxFiles::new(&source, &client, 90, 0, 0, 1);
    let file = files.extract_gpx(at(0, DEGREE), at(0, 2 * DEGREE));
    assert_eq!(file.points, reference()[1..].to_vec());
    assert_eq!(file.segments.len(), 1);
    assert_eq!(file.segments[0].points(), file.points);
    // the leg of the first copied sample belongs to a sample that was left out
    assert_eq!(file.length_2d(), 111_194_927);
    let again = GpxFiles::new(&source, &file, 90, 0, 0, 1);
    assert_eq!(again.extract_gpx(at(0, DEGREE), at(0, 2 * DEGREE)), file);
}
