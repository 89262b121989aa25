use glam::{DAffine2, DVec2};
use kurbo::{CubicBez, Line, ParamCurve, ParamCurveArclen, PathSeg, Point, QuadBez};
use shape_editor::bevel::{bevel_algorithm, sort_segments};
use shape_editor::bevel_run::BevelRun;
use shape_editor::chamfer::{calculate_distance_to_split, coarse_sample, fine_places_of, fine_sample, places_of, share_of, BevelCorner, BevelLengths};
use shape_editor::cut_search::{begin_cut, straight_cut, CutSearch, CutTask};
use shape_editor::ids::{PointId, SegmentId, StrokeId};
use shape_editor::paths::PathSegment;
use shape_editor::vector_data::{AnchorPoint, BezierHandles, Segment, VectorData};

const ACCURACY: f64 = 1e-6;

fn points(positions: &[(f64, f64)]) -> Vec<AnchorPoint> {
    positions.iter().enumerate().map(|(i, &(x, y))| AnchorPoint { id: PointId(i as u64 + 1), position: DVec2::new(x, y) }).collect()
}

fn segment(id: u64, start: usize, end: usize, handles: BezierHandles) -> Segment {
    Segment { id: SegmentId(id), start, end, handles, stroke: StrokeId(0) }
}

fn cubic(start: (f64, f64), end: (f64, f64)) -> BezierHandles {
    BezierHandles::Cubic { handle_start: DVec2::new(start.0, start.1), handle_end: DVec2::new(end.0, end.1) }
}

fn shape(positions: &[(f64, f64)], segments: Vec<Segment>) -> VectorData {
    VectorData { points: points(positions), segments, colinear_manipulators: vec![], regions: vec![] }
}

fn to_kurbo(segment: PathSegment) -> PathSeg {
    match segment {
        PathSegment::Line(a, b) => PathSeg::Line(Line::new(a, b)),
        PathSegment::Quad(a, b, c) => PathSeg::Quad(QuadBez::new(a, b, c)),
        PathSegment::Cubic(a, b, c, d) => PathSeg::Cubic(CubicBez::new(a, b, c, d)),
    }
}

fn is_straight(segment: PathSegment) -> bool {
    let in_line = |a: Point, b: Point, c: Point| ((b.x - a.x) * (c.y - a.y) - (b.y - a.y) * (c.x - a.x)).abs() < 1e-3;
    match segment {
        PathSegment::Line(..) => true,
        PathSegment::Quad(a, b, c) => in_line(a, b, c),
        PathSegment::Cubic(a, b, c, d) => in_line(a, b, d) && in_line(a, c, d),
    }
}

/// The parameter at a share of the length of a segment.
fn parameter(segment: PathSeg, share: f64) -> f64 {
    if let PathSeg::Line(_) = segment {
        return share;
    }
    segment.inv_arclen(share * segment.arclen(ACCURACY), ACCURACY)
}

fn place(segment: PathSegment, share: DVec2) -> DVec2 {
    DVec2::splat(parameter(to_kurbo(segment), share.x))
}

fn split_distance(first: PathSegment, second: PathSegment, distance: DVec2) -> DVec2 {
    match begin_cut((first, second), (is_straight(first), is_straight(second)), distance) {
        CutTask::Found(split) => split,
        CutTask::Search(mut search) => {
            while let Some(shares) = search.sought() {
                search.try_cut((place(first, shares.0), place(second, shares.1)));
            }
            search.split()
        }
    }
}

/// Cuts all corners of a shape.
fn bevel(data: VectorData, transform: DAffine2, distance: f64) -> VectorData {
    let distance = DVec2::splat(distance);
    let (last_point, last_segment) = (PointId(1000), SegmentId(1000));
    let mut run = BevelRun::begin(&data, transform, last_point);
    while let Some((one, other)) = run.corner() {
        let split = split_distance(one, other, distance);
        let measured = run.measure((is_straight(one), is_straight(other)), split).unwrap();
        let sought = measured.sought();
        let parameter_of = |sought: Option<(PathSegment, DVec2)>| sought.map(|(segment, share)| place(segment, share));
        run.cut(measured, (parameter_of(sought.0), parameter_of(sought.1)));
    }
    bevel_algorithm(data, distance, &run.cuts, last_point, last_segment).unwrap()
}

fn are_near(a: &[DVec2], b: &[DVec2]) -> bool {
    a.len() == b.len() && a.iter().zip(b).all(|(a, b)| a.abs_diff_eq(*b, 0.01))
}

/// The control points of a segment.
fn controls(data: &VectorData, segment: &Segment) -> Vec<DVec2> {
    let mut points = vec![data.points[segment.start].position];
    match segment.handles {
        BezierHandles::Linear => {}
        BezierHandles::Quadratic { handle } => points.push(handle),
        BezierHandles::Cubic { handle_start, handle_end } => points.extend([handle_start, handle_end]),
    }
    points.push(data.points[segment.end].position);
    points
}

/// Exactly one segment of a shape has the control points, in this direction or the other.
fn contains_bezier(data: &VectorData, target: &[DVec2]) {
    let matches = |segment: &&Segment| {
        let own = controls(data, segment);
        let reversed: Vec<DVec2> = own.iter().rev().copied().collect();
        are_near(&own, target) || are_near(&reversed, target)
    };
    assert_eq!(data.segments.iter().filter(matches).count(), 1, "{target:?} in {data:?}");
}

fn contains_segment(data: &VectorData, start: (f64, f64), end: (f64, f64)) {
    contains_bezier(data, &[DVec2::new(start.0, start.1), DVec2::new(end.0, end.1)]);
}

fn line(id: u64, start: usize, end: usize) -> Segment {
    segment(id, start, end, BezierHandles::Linear)
}

fn rectangle() -> VectorData {
    shape(&[(0., 0.), (100., 0.), (100., 100.), (0., 100.)], vec![line(1, 0, 1), line(2, 1, 2), line(3, 2, 3), line(4, 3, 0)])
}

#[test]
fn bevel_rect() {
    let beveled = bevel(rectangle(), DAffine2::IDENTITY, 2_f64.sqrt() * 10.);
    assert_eq!(beveled.points.len(), 8);
    assert_eq!(beveled.segments.len(), 8);

    // Segments
    contains_segment(&beveled, (10., 0.), (90., 0.));
    contains_segment(&beveled, (10., 100.), (90., 100.));
    contains_segment(&beveled, (0., 10.), (0., 90.));
    contains_segment(&beveled, (100., 10.), (100., 90.));

    // Joins
    contains_segment(&beveled, (10., 0.), (0., 10.));
    contains_segment(&beveled, (90., 0.), (100., 10.));
    contains_segment(&beveled, (100., 90.), (90., 100.));
    contains_segment(&beveled, (10., 100.), (0., 90.));
}

/// A line followed by a curve.
fn open_curve() -> VectorData {
    shape(&[(-100., 0.), (0., 0.), (100., 0.)], vec![line(1, 0, 1), segment(2, 1, 2, cubic((10., 0.), (10., 100.)))])
}

fn is_open_curve_beveled(beveled: &VectorData) {
    assert_eq!(beveled.points.len(), 4);
    assert_eq!(beveled.segments.len(), 3);

    // Segments
    contains_segment(beveled, (-8.2, 0.), (-100., 0.));
    let curve = CubicBez::new((0., 0.), (10., 0.), (10., 100.), (100., 0.));
    let trimmed = curve.subsegment(curve.inv_arclen(8.2, ACCURACY)..1.);
    let position = |point: Point| DVec2::new(point.x, point.y);
    contains_bezier(beveled, &[position(trimmed.p0), position(trimmed.p1), position(trimmed.p2), position(trimmed.p3)]);

    // Join
    contains_segment(beveled, (-8.2, 0.), (trimmed.p0.x, trimmed.p0.y));
}

#[test]
fn bevel_open_curve() {
    is_open_curve_beveled(&bevel(open_curve(), DAffine2::IDENTITY, 2_f64.sqrt() * 10.));
}

#[test]
fn bevel_with_transform() {
    // A transform that another row with the shape has does not matter.
    let other = DAffine2::from_scale_angle_translation(DVec2::splat(10.), 1., DVec2::new(99., 77.));
    assert!(bevel(open_curve(), other, 2_f64.sqrt() * 10.).points.len() == 4);
    is_open_curve_beveled(&bevel(open_curve(), DAffine2::IDENTITY, 2_f64.sqrt() * 10.));
}

#[test]
fn the_distance_is_one_under_the_transform() {
    let data = shape(&[(-10., 0.), (0., 0.), (10., 0.), (10., 10.)], vec![line(1, 0, 1), line(2, 1, 2), line(3, 2, 3)]);
    let transform = DAffine2::from_scale_angle_translation(DVec2::splat(10.), 1., DVec2::new(99., 77.));
    let beveled = bevel(data, transform, 2_f64.sqrt() * 10.);
    assert_eq!(beveled.points.len(), 6);
    assert_eq!(beveled.segments.len(), 5);
    contains_segment(&beveled, (9., 0.), (10., 1.));
    contains_segment(&beveled, (10., 1.), (10., 10.));
}

#[test]
fn bevel_too_high() {
    let data = shape(&[(0., 0.), (100., 0.), (100., 100.), (0., 100.)], vec![line(1, 0, 1), line(2, 1, 2), line(3, 2, 3)]);
    let beveled = bevel(data, DAffine2::IDENTITY, 999.);
    assert_eq!(beveled.points.len(), 6);
    assert_eq!(beveled.segments.len(), 5);

    // Segments
    contains_segment(&beveled, (0., 0.), (50., 0.));
    contains_segment(&beveled, (100., 50.), (100., 50.));
    contains_segment(&beveled, (100., 50.), (50., 100.));

    // Joins
    contains_segment(&beveled, (50., 0.), (100., 50.));
    contains_segment(&beveled, (100., 50.), (50., 100.));
}

#[test]
fn bevel_repeated_point() {
    let data = shape(
        &[(0., 0.), (100., 0.), (100., 0.), (200., 0.)],
        vec![line(1, 0, 1), segment(2, 1, 2, cubic((0., 0.), (0., 0.))), segment(3, 2, 3, cubic((110., 0.), (110., 200.)))],
    );
    let beveled = bevel(data, DAffine2::IDENTITY, 5.);
    assert_eq!(beveled.points.len(), 6);
    assert_eq!(beveled.segments.len(), 5);
}

#[test]
fn a_short_bevel_changes_nothing() {
    let cuts = vec![];
    let single = shape(&[(0., 0.), (1., 0.)], vec![]);
    let kept = bevel_algorithm(single, DVec2::splat(50.), &cuts, PointId(9), SegmentId(9)).unwrap();
    assert_eq!(kept.points.len(), 2);
}

#[test]
fn a_run_ends_after_the_last_corner() {
    let data = rectangle();
    let mut run = BevelRun::begin(&data, DAffine2::IDENTITY, PointId(9));
    for _ in 0..4 {
        let measured = run.measure((true, true), DVec2::splat(10.)).unwrap();
        assert_eq!(measured.sought().0.map(|sought| sought.1), Some(DVec2::splat(10. / measured.distances.end.unwrap().1.x)));
        run.cut(measured, (Some(DVec2::splat(0.1)), Some(DVec2::splat(0.1))));
    }
    assert!(run.corner().is_none() && run.measure((true, true), DVec2::ONE).is_none());
    assert_eq!(run.cuts.len(), 4);
}

#[test]
fn joins_are_numbered_on() {
    let beveled = bevel(rectangle(), DAffine2::IDENTITY, 2_f64.sqrt() * 10.);
    let ids: Vec<u64> = beveled.points.iter().map(|point| point.id.0).collect();
    assert_eq!(ids, vec![1, 2, 3, 4, 1001, 1002, 1003, 1004]);
    let joins: Vec<u64> = beveled.segments.iter().skip(4).map(|segment| segment.id.0).collect();
    assert_eq!(joins, vec![1001, 1002, 1003, 1004]);
    assert!(beveled.segments.iter().skip(4).all(|segment| segment.start >= 4 && segment.end < 4));
    assert_eq!(PointId(u64::MAX).successor(), PointId(0));
    assert_eq!(SegmentId(u64::MAX).successor(), SegmentId(0));
}

#[test]
fn segments_are_sorted_along_the_path() {
    let segments = vec![line(1, 0, 1), line(2, 2, 3), line(3, 1, 2)];
    assert_eq!(sort_segments(&segments), vec![0, 2, 1]);
    let apart = vec![line(1, 0, 1), line(2, 5, 6), line(3, 7, 8)];
    assert_eq!(sort_segments(&apart), vec![0, 1, 2]);
}

#[test]
fn the_split_is_refined_before_the_first_cut_that_is_too_long() {
    let lengths: Vec<DVec2> = (0..=50).map(|step| DVec2::splat(step as f64)).collect();
    let fine: Vec<DVec2> = (1..=10).map(|step| DVec2::splat(2. + step as f64 / 10.)).collect();
    // The cuts are as long as the step, of which each is two along the segments.
    let split = calculate_distance_to_split(DVec2::splat(2.45), DVec2::splat(100.), &lengths, &fine);
    assert!((split.x - 5.).abs() < 1e-9);
    let unrefined = calculate_distance_to_split(DVec2::splat(2.45), DVec2::splat(100.), &lengths, &vec![]);
    assert_eq!(unrefined, DVec2::splat(6.));
    let never = calculate_distance_to_split(DVec2::splat(99.), DVec2::splat(100.), &lengths, &vec![]);
    assert_eq!(never, DVec2::splat(100.));
    assert_eq!(calculate_distance_to_split(DVec2::ONE, DVec2::ONE, &vec![], &vec![]), DVec2::ZERO);
}

#[test]
fn tried_places_are_rounded() {
    let (first, second) = places_of(DVec2::splat(1.), DVec2::splat(3.), DVec2::splat(0.5));
    assert_eq!(first, DVec2::splat(1. - 0.333));
    assert_eq!(second, DVec2::ONE);
    let (first, second) = fine_places_of(DVec2::splat(1.), DVec2::splat(4.), DVec2::splat(8.));
    assert_eq!((first, second), (DVec2::splat(0.75), DVec2::splat(0.125)));
    assert_eq!(coarse_sample(DVec2::splat(50.), 25), DVec2::splat(25.));
    assert_eq!(fine_sample(DVec2::splat(50.), 25, 5), DVec2::splat(24.5));
    assert_eq!(share_of(DVec2::splat(9.), DVec2::splat(3.)), DVec2::ONE);
}

#[test]
fn no_more_than_half_of_a_segment_is_cut() {
    let corner = BevelCorner {
        index: 0,
        count: 3,
        length: DVec2::splat(10.),
        next_length: DVec2::splat(6.),
        split: DVec2::splat(100.),
        open_end: true,
        open_start: true,
    };
    let mut lengths = BevelLengths::begin();
    let distances = lengths.cut(corner);
    assert_eq!(distances.end, Some((DVec2::splat(3.), DVec2::splat(10.))));
    assert_eq!(distances.start, Some((DVec2::splat(3.), DVec2::splat(6.))));
    assert_eq!((lengths.first, lengths.previous), (DVec2::splat(7.), DVec2::splat(3.)));
    assert_eq!((lengths.first_original, lengths.previous_original), (DVec2::splat(10.), DVec2::splat(6.)));
    let last = BevelCorner { index: 2, open_end: false, ..corner };
    let distances = lengths.cut(last);
    assert_eq!(distances.end, None);
    assert_eq!(distances.start, Some((DVec2::splat(3.), DVec2::splat(7.))));
    let mut short = BevelLengths::begin();
    assert_eq!(short.cut(BevelCorner { length: DVec2::splat(1e-12), ..corner }).end, None);
}

#[test]
fn a_straight_corner_is_cut_by_its_angle() {
    let first = PathSegment::Line(Point::new(0., 0.), Point::new(3., 0.));
    let second = PathSegment::Line(Point::new(3., 0.), Point::new(3., 7.));
    let split = straight_cut(first, second, DVec2::splat(2_f64.sqrt()));
    assert!(split.abs_diff_eq(DVec2::ONE, 1e-9));
}

#[test]
fn a_search_tries_finer_cuts_after_one_that_is_too_long() {
    let first = PathSegment::Line(Point::new(-50., 0.), Point::new(0., 0.));
    let second = PathSegment::Line(Point::new(0., 0.), Point::new(0., 100.));
    let mut search = CutSearch::begin(first, second, DVec2::splat(2.1));
    assert_eq!(search.segment_lengths, (DVec2::splat(50.), DVec2::splat(100.)));
    while let Some(shares) = search.sought() {
        search.try_cut(shares);
    }
    assert_eq!((search.lengths.len(), search.fine_lengths.len()), (3, 5));
    assert!(search.lengths[2].abs_diff_eq(DVec2::splat(8_f64.sqrt()), 1e-9));
    assert!(search.split().abs_diff_eq(DVec2::splat(1.5), 1e-9));
}

#[test]
fn a_search_without_a_cut_that_is_too_long_takes_the_nearest() {
    let first = PathSegment::Line(Point::new(-50., 0.), Point::new(0., 0.));
    let second = PathSegment::Line(Point::new(0., 0.), Point::new(0., 100.));
    let mut search = CutSearch::begin(first, second, DVec2::splat(99.));
    while let Some(shares) = search.sought() {
        search.try_cut(shares);
    }
    assert_eq!((search.lengths.len(), search.fine_lengths.len()), (51, 0));
    assert_eq!(search.split(), DVec2::splat(50.));
}
