use glam::{DAffine2, DVec2};
use kurbo::Point;
use shape_editor::flatten::{flatten_path, flattened_style, GraphicElement, GroupRow, TreeShape};
use shape_editor::fresh_ids::FreshIds;
use shape_editor::ids::{FillId, PointId, RegionId, SegmentId, StrokeId};
use shape_editor::instancing::{copy_to_points_by_poses, mirror, mirror_by_normal, PointsRow, Pose, RandomPlacement};
use shape_editor::jitter::{jitter_by_deltas, jitter_points};
use shape_editor::lengths::{area, subpath_segment_lengths, PathsRow, ScaledPaths};
use shape_editor::measures::{centroid, count_elements, dimensions, point_inside, CentroidType, MeasuredShape, Weighted};
use shape_editor::morph::{make_new_segments, try_morph};
use shape_editor::offset::{offset_path, place_offsets, OffsetJoin};
use shape_editor::paths::{get_seg, segments, subdivide, to_cubic, PathElement, PathSegment};
use shape_editor::polyline::{points_to_polyline, position_to_point, SplineStroke};
use shape_editor::rounding::{round_corners, Rounding};
use shape_editor::sampling::{close_at_end, close_with_box, encloses, place_samples, poisson_disk_points, PointSpacingType};
use shape_editor::splitting::{count_ends, split_segments};
use shape_editor::style::{
    assign_colors, color_factors, fill, solidify_stroke, stroke, Color, Fill, Gradient, GradientType, PaintOrder, PathStyle, Stroke, StrokeAlign, StrokeCap,
    StrokeJoin, StyledRow,
};
use shape_editor::subpath::{ManipulatorGroup, Subpath};
use shape_editor::tangents::auto_tangents;
use shape_editor::traversal::{is_closed, locate, position_on_path, reopen, split_path, tangent_on_path, tangent_retry, PathPiece, PlacedPath};
use shape_editor::vector_data::{AnchorPoint, BezierHandles, Segment, VectorData};
use shape_editor::warp::{bilinear_interpolate, box_warp, Quad, WarpTarget};

fn points(positions: &[(f64, f64)]) -> Vec<AnchorPoint> {
    positions.iter().enumerate().map(|(i, &(x, y))| AnchorPoint { id: PointId(i as u64 + 1), position: DVec2::new(x, y) }).collect()
}

fn line(id: u64, start: usize, end: usize) -> Segment {
    Segment { id: SegmentId(id), start, end, handles: BezierHandles::Linear, stroke: StrokeId(0) }
}

fn shape(positions: &[(f64, f64)], segments: Vec<Segment>) -> VectorData {
    VectorData { points: points(positions), segments, colinear_manipulators: vec![], regions: vec![] }
}

fn positions(data: &VectorData) -> Vec<DVec2> {
    data.points.iter().map(|point| point.position).collect()
}

fn move_to(x: f64, y: f64) -> PathElement {
    PathElement::MoveTo(Point::new(x, y))
}

fn line_to(x: f64, y: f64) -> PathElement {
    PathElement::LineTo(Point::new(x, y))
}

fn square(low: f64, high: f64) -> Vec<PathElement> {
    vec![move_to(low, low), line_to(high, low), line_to(high, high), line_to(low, high), PathElement::ClosePath]
}

fn text<T: std::fmt::Debug>(value: T) -> String {
    format!("{value:?}")
}

/// A style whose stroke has a transform.
fn placed_style() -> PathStyle {
    let stroke = Stroke { transform: DAffine2::from_scale(DVec2::splat(7.)), ..plain_stroke() };
    PathStyle { fill: Fill::Unfilled, stroke: Some(stroke) }
}

fn stroke_transform(style: &PathStyle) -> DAffine2 {
    style.stroke.as_ref().unwrap().transform
}

const BLACK: Color = Color { red: 0, green: 0, blue: 0, alpha: 1 };

fn plain_stroke() -> Stroke {
    Stroke {
        color: Some(BLACK),
        weight: DVec2::splat(2.),
        dash_lengths: vec![DVec2::splat(3.)],
        dash_offset: DVec2::ZERO,
        cap: StrokeCap::Round,
        join: StrokeJoin::Bevel,
        join_miter_limit: DVec2::splat(4.),
        align: StrokeAlign::Center,
        transform: DAffine2::from_scale(DVec2::splat(7.)),
        non_scaling: true,
        paint_order: PaintOrder::StrokeAbove,
    }
}

#[test]
fn a_closed_polyline_comes_back() {
    let mut data = shape(&[(0., 0.), (1., 0.), (1., 1.)], vec![line(9, 0, 2)]);
    let mut ids = FreshIds::given((100..120).collect());
    points_to_polyline(&mut data, true, &mut ids);
    let ends: Vec<_> = data.segments.iter().map(|segment| (segment.id, segment.start, segment.end, segment.stroke)).collect();
    assert_eq!(
        ends,
        vec![
            (SegmentId(100), 0, 1, StrokeId(101)),
            (SegmentId(102), 1, 2, StrokeId(103)),
            (SegmentId(104), 2, 0, StrokeId(105)),
        ]
    );
    assert_eq!(data.regions.len(), 1);
    assert_eq!(data.regions[0].id, RegionId(106));
    assert_eq!(data.regions[0].segments, (SegmentId(100), SegmentId(104)));
    assert_eq!(data.regions[0].fill, FillId(107));
    points_to_polyline(&mut data, false, &mut ids);
    assert_eq!(data.segments.len(), 2);
    assert!(data.regions.is_empty());
    assert_eq!(ids.used, 12);
}

#[test]
fn two_points_make_no_polyline() {
    let mut data = shape(&[(0., 0.), (1., 0.)], vec![line(9, 0, 1)]);
    let mut ids = FreshIds::random();
    points_to_polyline(&mut data, true, &mut ids);
    assert!(data.segments.is_empty() && data.regions.is_empty());
    assert_eq!(ids.used, 0);
}

#[test]
fn a_position_becomes_a_point() {
    let mut ids = FreshIds::random();
    let data = position_to_point(DVec2::new(3., 4.), &mut ids);
    assert_eq!(positions(&data), vec![DVec2::new(3., 4.)]);
    assert_eq!(data.points[0].id.0, ids.values[0]);
}

#[test]
fn spline() {
    let corners = [DVec2::ZERO, DVec2::new(100., 0.), DVec2::new(100., 100.), DVec2::new(0., 100.)];
    let mut data = shape(&[(0., 0.), (100., 0.), (100., 100.), (0., 100.)], vec![line(9, 0, 1)]);
    let first_handles: Vec<DVec2> = corners.iter().map(|corner| *corner + DVec2::X).collect();
    let stroke = SplineStroke { points: (1..=4).map(PointId).collect(), positions: corners.to_vec(), closed: true, first_handles };
    let mut ids = FreshIds::given(vec![50, 51, 52, 53]);
    assert!(shape_editor::polyline::spline(&mut data, &vec![stroke], &mut ids));
    assert_eq!(positions(&data), corners.to_vec());
    assert_eq!(data.segments.len(), 4);
    assert_eq!((data.segments[3].start, data.segments[3].end), (3, 0));
    let expected = BezierHandles::Cubic { handle_start: DVec2::new(1., 0.), handle_end: DVec2::new(99., 0.) };
    assert_eq!(text(data.segments[0].handles), text(expected));
    let mut empty = shape(&[], vec![]);
    assert!(!shape_editor::polyline::spline(&mut empty, &vec![], &mut ids));
}

#[test]
fn split_segments_share_no_point() {
    let mut data = shape(&[(0., 0.), (1., 0.), (1., 1.), (5., 5.)], vec![line(1, 0, 1), line(2, 1, 2), line(3, 2, 0)]);
    let before = data.segments.clone();
    let old = positions(&data);
    assert_eq!(count_ends(&data), vec![2, 2, 2, 0]);
    let copy_ids = vec![vec![PointId(70)], vec![PointId(71)], vec![PointId(72)], vec![]];
    split_segments(&mut data, &copy_ids);
    assert_eq!(data.points.len(), 7);
    assert_eq!(data.points.iter().map(|point| point.id.0).collect::<Vec<_>>(), vec![1, 70, 2, 71, 3, 72, 4]);
    let mut used: Vec<usize> = data.segments.iter().flat_map(|segment| [segment.start, segment.end]).collect();
    used.sort();
    assert_eq!(used, vec![0, 1, 2, 3, 4, 5]);
    for (segment, original) in data.segments.iter().zip(&before) {
        assert_eq!(data.points[segment.start].position, old[original.start]);
        assert_eq!(data.points[segment.end].position, old[original.end]);
    }
    assert_eq!((data.segments[0].start, data.segments[0].end), (1, 3));

    // Splitting once more changes nothing.
    let once = text(&data);
    split_segments(&mut data, &vec![vec![]; 7]);
    assert_eq!(text(&data), once);
}

#[test]
fn jitter_moves_each_point_once() {
    let mut data = shape(&[(0., 0.), (1., 0.), (1., 1.), (5., 5.)], vec![line(1, 0, 1), line(2, 1, 2)]);
    data.segments[0].handles = BezierHandles::Cubic { handle_start: DVec2::new(0.1, 0.), handle_end: DVec2::new(0.9, 0.) };
    data.segments[1].handles = BezierHandles::Quadratic { handle: DVec2::new(2., 2.) };
    let deltas = vec![DVec2::new(10., 0.), DVec2::new(20., 0.), DVec2::new(40., 0.), DVec2::new(80., 0.)];
    jitter_by_deltas(&mut data, DAffine2::IDENTITY, &deltas);
    assert_eq!(positions(&data), vec![DVec2::new(10., 0.), DVec2::new(21., 0.), DVec2::new(41., 1.), DVec2::new(5., 5.)]);
    let expected = BezierHandles::Cubic { handle_start: DVec2::new(10.1, 0.), handle_end: DVec2::new(20.9, 0.) };
    assert_eq!(text(data.segments[0].handles), text(expected));
    assert_eq!(text(data.segments[1].handles), text(BezierHandles::Quadratic { handle: DVec2::new(32., 2.) }));
}

#[test]
fn jitter_stays_within_the_amount() {
    let mut data = shape(&[(0., 0.), (100., 0.), (100., 100.)], vec![line(1, 0, 1), line(2, 1, 2)]);
    let mut same = shape(&[(0., 0.), (100., 0.), (100., 100.)], vec![line(1, 0, 1), line(2, 1, 2)]);
    let before = positions(&data);
    let mut style = placed_style();
    jitter_points(&mut data, &mut style, DAffine2::from_scale(DVec2::splat(2.)), DVec2::splat(10.), 3);
    assert_eq!(stroke_transform(&style), DAffine2::IDENTITY);
    jitter_points(&mut same, &mut style, DAffine2::from_scale(DVec2::splat(2.)), DVec2::splat(10.), 3);
    for (after, before) in positions(&data).iter().zip(&before) {
        assert!(after.distance(*before) <= 5.);
    }
    assert_ne!(positions(&data), before);
    assert_eq!(positions(&data), positions(&same));
}

#[test]
fn interpolates_within_a_quadrilateral() {
    let quad = Quad { top_left: DVec2::ZERO, top_right: DVec2::new(10., 0.), bottom_right: DVec2::new(20., 10.), bottom_left: DVec2::new(0., 10.) };
    assert_eq!(bilinear_interpolate(DVec2::new(1., 1.), quad), DVec2::new(20., 10.));
    assert_eq!(bilinear_interpolate(DVec2::new(0.5, 0.5), quad), DVec2::new(7.5, 5.));
}

#[test]
fn warps_a_box_into_its_target() {
    let mut data = shape(&[(0., 0.), (2., 0.), (2., 2.)], vec![line(1, 0, 1)]);
    data.segments[0].handles = BezierHandles::Quadratic { handle: DVec2::new(1., 1.) };
    let corners = vec![DVec2::ZERO, DVec2::new(10., 0.), DVec2::new(10., 20.), DVec2::new(0., 20.)];
    let target = WarpTarget { positions: corners, transform: DAffine2::from_translation(DVec2::X) };
    let mut style = placed_style();
    let bounds = Some((DVec2::ZERO, DVec2::splat(2.)));
    let transform = box_warp(&mut data, &mut style, DAffine2::IDENTITY, bounds, Some(&target));
    assert_eq!(stroke_transform(&style), DAffine2::IDENTITY);
    assert_eq!(transform, DAffine2::IDENTITY);
    assert_eq!(positions(&data), vec![DVec2::new(1., 0.), DVec2::new(11., 0.), DVec2::new(11., 20.)]);
    assert_eq!(text(data.segments[0].handles), text(BezierHandles::Quadratic { handle: DVec2::new(6., 10.) }));
    let mut kept = shape(&[(0., 0.), (2., 2.), (1., 0.)], vec![]);
    let point = WarpTarget { positions: vec![DVec2::ONE], transform: DAffine2::IDENTITY };
    box_warp(&mut kept, &mut style, DAffine2::IDENTITY, bounds, Some(&point));
    assert_eq!(positions(&kept), vec![DVec2::ZERO, DVec2::splat(2.), DVec2::new(1., 0.)]);
}

#[test]
fn nothing_is_warped_without_a_target() {
    let mut data = shape(&[(0., 0.), (2., 0.)], vec![line(1, 0, 1)]);
    let mut style = placed_style();
    let shift = DAffine2::from_translation(DVec2::Y);
    assert_eq!(box_warp(&mut data, &mut style, shift, Some((DVec2::ZERO, DVec2::ONE)), None), shift);
    assert_eq!(positions(&data), vec![DVec2::ZERO, DVec2::new(2., 0.)]);
    assert_eq!(stroke_transform(&style), stroke_transform(&placed_style()));
}

#[test]
fn repeat() {
    let direction = DVec2::X * 1.5;
    let placed = shape_editor::instancing::repeat(&vec![DAffine2::IDENTITY], direction, DVec2::ZERO, 3);
    assert_eq!(placed.len(), 3);
    for (index, copy) in placed.iter().enumerate() {
        assert_eq!(copy.row, 0);
        assert!((copy.transform.transform_point2(DVec2::ZERO) - direction * index as f64 / 2.).length() < 1e-5);
    }
}

#[test]
fn repeat_transform_position() {
    let direction = DVec2::new(12., 10.);
    let placed = shape_editor::instancing::repeat(&vec![DAffine2::IDENTITY], direction, DVec2::ZERO, 8);
    assert_eq!(placed.len(), 8);
    for (index, copy) in placed.iter().enumerate() {
        assert!((copy.transform.transform_point2(DVec2::ZERO) - direction * index as f64 / 7.).length() < 1e-5);
    }
}

#[test]
fn repeats_all_rows_around_themselves() {
    let rows = vec![DAffine2::from_translation(DVec2::new(5., 0.)), DAffine2::from_scale(DVec2::splat(3.))];
    let turns = vec![DVec2::X, DVec2::Y];
    let placed = shape_editor::instancing::repeat_by_turns(&rows, DVec2::new(10., 0.), &turns);
    assert_eq!(placed.iter().map(|copy| copy.row).collect::<Vec<_>>(), vec![0, 1, 0, 1]);
    // The second copy moves by ten along the first axis and is then turned to the second one.
    assert_eq!(placed[2].transform.transform_point2(DVec2::ZERO), DVec2::new(5., 10.));
    assert_eq!(placed[3].transform.transform_vector2(DVec2::X), DVec2::new(0., 3.));
    assert_eq!(shape_editor::instancing::repeat(&rows, DVec2::X, DVec2::ZERO, 0).len(), 2);
}

#[test]
fn angles_of_repetitions() {
    let angles = shape_editor::instancing::repeat_angles(DVec2::splat(180.), 3);
    assert_eq!(angles, vec![DVec2::ZERO, DVec2::splat(std::f64::consts::FRAC_PI_2), DVec2::splat(std::f64::consts::PI)]);
    let around = shape_editor::instancing::circular_angles(DVec2::splat(0.), 4);
    assert_eq!(around[2], DVec2::splat(std::f64::consts::PI));
}

#[test]
fn circular_repeat() {
    let placed = shape_editor::instancing::circular_repeat(&vec![DAffine2::IDENTITY], DVec2::splat(45.), DVec2::splat(4.), 8);
    assert_eq!(placed.len(), 8);
    for (index, copy) in placed.iter().enumerate() {
        let expected_angle = (index as f64 + 1.) * 45.;
        let center = copy.transform.transform_point2(DVec2::ZERO);
        let actual_angle = DVec2::Y.angle_to(center).to_degrees();
        assert!((actual_angle - expected_angle).abs() % 360. < 1e-5, "Expected {expected_angle} found {actual_angle}");
    }
}

#[test]
fn copy_to_points() {
    let corners = vec![DVec2::new(-10., -10.), DVec2::new(10., -10.), DVec2::new(10., 10.), DVec2::new(-10., 10.)];
    let placing = RandomPlacement { scale_min: DVec2::ONE, scale_max: DVec2::ONE, scale_bias: DVec2::ZERO, rotation: DVec2::ZERO };
    let rows = vec![PointsRow { transform: DAffine2::IDENTITY, positions: corners.clone() }];
    let placed = shape_editor::instancing::copy_to_points(&rows, &vec![DAffine2::IDENTITY], placing, 0, 0);
    assert_eq!(placed.len(), corners.len());
    for (copy, corner) in placed.iter().zip(&corners) {
        for point in [DVec2::NEG_ONE, DVec2::new(1., -1.), DVec2::ONE, DVec2::new(-1., 1.)] {
            assert_eq!(copy.transform.transform_point2(point), *corner + point);
        }
    }
}

#[test]
fn random_copies_stay_within_their_range() {
    let placing =
        RandomPlacement { scale_min: DVec2::splat(1.), scale_max: DVec2::splat(3.), scale_bias: DVec2::splat(2.), rotation: DVec2::splat(90.) };
    let rows = vec![PointsRow { transform: DAffine2::IDENTITY, positions: vec![DVec2::ZERO; 20] }];
    let placed = shape_editor::instancing::copy_to_points(&rows, &vec![DAffine2::IDENTITY], placing, 1, 2);
    let mut scales = vec![];
    for copy in &placed {
        let axis = copy.transform.transform_vector2(DVec2::X);
        assert!(axis.length() >= 1. - 1e-9 && axis.length() <= 3. + 1e-9);
        assert!(DVec2::X.angle_to(axis).abs() <= std::f64::consts::FRAC_PI_4 + 1e-9);
        scales.push(axis.length());
    }
    assert!(scales.iter().any(|scale| (scale - scales[0]).abs() > 1e-6));
    assert_eq!(placing.scale(Some(DVec2::splat(0.5))), DVec2::splat(2.));
    assert_eq!(placing.scale(None), DVec2::ONE);
    assert_eq!(placing.angle(None), DVec2::ZERO);
    assert_eq!(placing.angle(Some(DVec2::splat(1.))), DVec2::splat(45. / 360. * std::f64::consts::TAU));
}

#[test]
fn a_bias_weights_the_drawn_sizes() {
    let sizes = |bias: f64| -> Vec<f64> {
        let placing =
            RandomPlacement { scale_min: DVec2::ONE, scale_max: DVec2::splat(3.), scale_bias: DVec2::splat(bias), rotation: DVec2::ZERO };
        let rows = vec![PointsRow { transform: DAffine2::IDENTITY, positions: vec![DVec2::ZERO; 20] }];
        let placed = shape_editor::instancing::copy_to_points(&rows, &vec![DAffine2::IDENTITY], placing, 1, 2);
        placed.iter().map(|copy| copy.transform.transform_vector2(DVec2::X).length()).collect()
    };
    // The same shares are drawn from the same seed.
    for (plain, weighted) in sizes(0.).iter().zip(sizes(2.)) {
        let share = (plain - 1.) / 2.;
        assert!((weighted - (1. + (1. + 3. * share).log2())).abs() < 1e-9);
    }
}

#[test]
fn curves_are_measured_along_their_bend() {
    let bend = vec![move_to(0., 0.), PathElement::QuadTo(Point::new(5., 10.), Point::new(10., 0.))];
    let line = vec![move_to(1., 1.), PathElement::LineTo(Point::new(4., 5.))];
    let lengths = subpath_segment_lengths(&vec![PathsRow { paths: vec![bend, line], transform: DAffine2::IDENTITY }]);
    // With slopes from 2 to -2 the length is 5 (sqrt(5) + asinh(2) / 2).
    assert!((lengths[0].x - 5. * (5_f64.sqrt() + 2_f64.asinh() / 2.)).abs() < 1e-6);
    assert_eq!(lengths[1], DVec2::splat(5.));
}

#[test]
fn colors_are_drawn_from_the_seed() {
    let factors = |seed: u64| color_factors(20, true, seed, 0);
    assert_eq!(factors(3), factors(3));
    assert_ne!(factors(3), factors(4));
    assert!(factors(3).iter().all(|factor| factor.x == factor.y && (0. ..1.).contains(&factor.x)));
}

#[test]
fn closing_at_the_start_leaves_the_pen() {
    let path = vec![move_to(0., 0.), line_to(1., 0.), line_to(-0., 0.), PathElement::ClosePath, line_to(1., 1.)];
    let parts = segments(&path);
    assert_eq!(parts.len(), 3);
    assert!(parts[2].start().x.is_sign_negative());
}

#[test]
fn a_time_beyond_the_ends_morphs_as_the_end() {
    let at = |time: f64| {
        let row = |path| vec![PathsRow { paths: vec![path], transform: DAffine2::IDENTITY }];
        text(try_morph(&row(square(0., 100.)), &row(square(50., 70.)), DVec2::splat(time)))
    };
    assert_eq!(at(7.), at(1.));
    assert_eq!(at(-3.), at(0.));
    assert_ne!(at(0.), at(1.));
}

#[test]
fn the_smaller_and_the_larger_coordinates_are_taken() {
    let nan = f64::NAN;
    let boxes = vec![Some((DVec2::new(nan, 1.), DVec2::new(nan, 4.))), Some((DVec2::new(2., 3.), DVec2::new(5., 3.)))];
    assert_eq!(dimensions(&boxes), DVec2::new(3., 3.));
}

#[test]
fn poses_place_copies() {
    let rows = vec![PointsRow { transform: DAffine2::from_translation(DVec2::X), positions: vec![DVec2::new(4., 5.)] }];
    let placed = copy_to_points_by_poses(&rows, &vec![DAffine2::IDENTITY], &vec![Pose { scale: DVec2::splat(2.), direction: DVec2::Y }]);
    assert_eq!(placed[0].transform.transform_point2(DVec2::ZERO), DVec2::new(5., 5.));
    assert_eq!(placed[0].transform.transform_vector2(DVec2::X), DVec2::new(0., 2.));
}

#[test]
fn mirrors_about_a_line() {
    let rows = vec![DAffine2::from_translation(DVec2::new(3., 1.))];
    let placed = mirror_by_normal(&rows, Some(DVec2::new(5., 0.)), DVec2::splat(1.), DVec2::X, true);
    assert_eq!(placed.len(), 2);
    assert_eq!(placed[0].transform, rows[0]);
    assert_eq!(placed[1].transform.transform_point2(DVec2::ZERO), DVec2::new(9., 1.));
    let alone = mirror_by_normal(&rows, None, DVec2::splat(2.), DVec2::X, false);
    assert_eq!(alone[0].transform.transform_point2(DVec2::ZERO), DVec2::new(-1., 1.));
    assert!(mirror(&rows, None, DVec2::ZERO, DVec2::ZERO, true).is_empty());
    let across = mirror(&rows, Some(Some(DVec2::ZERO)), DVec2::ZERO, DVec2::splat(90.), false);
    assert!((across[0].transform.transform_point2(DVec2::ZERO) - DVec2::new(3., -1.)).length() < 1e-9);
}

#[test]
fn colors_run_along_the_gradient() {
    assert_eq!(color_factors(3, false, 0, 0), vec![DVec2::ZERO, DVec2::splat(0.5), DVec2::ONE]);
    assert_eq!(color_factors(1, false, 0, 0), vec![DVec2::ZERO]);
    assert_eq!(color_factors(2, false, 0, 1), vec![DVec2::ZERO, DVec2::ZERO]);
    assert_eq!(color_factors(4, false, 0, 3), vec![DVec2::ZERO, DVec2::splat(0.5), DVec2::ONE, DVec2::ZERO]);
    let random = color_factors(4, true, 9, 0);
    assert!(random.iter().all(|factor| (0. ..1.).contains(&factor.x)));
    assert_ne!(random[0], random[1]);
    assert!(color_factors(0, false, 0, 0).is_empty());
}

#[test]
fn assigns_colors_to_fill_and_stroke() {
    let red = Color { red: 5, ..BLACK };
    let mut rows = vec![
        StyledRow { style: PathStyle { fill: Fill::Unfilled, stroke: Some(plain_stroke()) }, transform: DAffine2::IDENTITY },
        StyledRow { style: PathStyle { fill: Fill::Unfilled, stroke: None }, transform: DAffine2::IDENTITY },
    ];
    assign_colors(&mut rows, false, true, &vec![red, red]);
    assert_eq!(rows[0].style.stroke.as_ref().map(|stroke| stroke.color), Some(Some(red)));
    assert!(matches!(rows[0].style.fill, Fill::Unfilled));
    assert!(rows[1].style.stroke.is_none());
    assign_colors(&mut rows, true, false, &vec![red, BLACK]);
    assert!(matches!(rows[0].style.fill, Fill::Solid(Color { red: 5, .. })));
    assert!(matches!(rows[1].style.fill, Fill::Solid(Color { red: 0, .. })));
}

#[test]
fn a_gradient_follows_the_shape() {
    let scale = DAffine2::from_scale(DVec2::splat(2.));
    let shift = DAffine2::from_translation(DVec2::X);
    let mut rows = vec![StyledRow { style: PathStyle { fill: Fill::Unfilled, stroke: None }, transform: shift }];
    let gradient = Gradient {
        stops: vec![(DVec2::ZERO, BLACK)],
        gradient_type: GradientType::Linear,
        start: DVec2::ZERO,
        end: DVec2::ONE,
        transform: scale,
    };
    fill(&mut rows, &Fill::Gradient(gradient));
    match &rows[0].style.fill {
        Fill::Gradient(own) => assert_eq!(own.transform, scale * shift),
        _ => panic!("no gradient"),
    }
    stroke(&mut rows, &plain_stroke());
    let own = rows[0].style.stroke.as_ref().unwrap();
    assert_eq!(own.transform, shift);
    assert!(!own.non_scaling);
    assert_eq!(own.dash_lengths, vec![DVec2::splat(3.)]);
}

#[test]
fn a_solid_stroke_becomes_a_fill() {
    let style = PathStyle { fill: Fill::Unfilled, stroke: Some(plain_stroke()) };
    let default_stroke = Stroke { weight: DVec2::ZERO, ..plain_stroke() };
    let (settings, solid) = solidify_stroke(&style, &default_stroke);
    assert_eq!(settings.weight, DVec2::splat(2.));
    assert_eq!((settings.cap, settings.join), (StrokeCap::Round, StrokeJoin::Bevel));
    assert_eq!(settings.dash_lengths, vec![DVec2::splat(3.)]);
    assert!(matches!(solid.fill, Fill::Solid(color) if color == BLACK));
    assert_eq!(solid.stroke.map(|stroke| stroke.weight), Some(DVec2::ZERO));
    let (settings, solid) = solidify_stroke(&PathStyle { fill: Fill::Solid(BLACK), stroke: None }, &default_stroke);
    assert_eq!(settings.weight, DVec2::ZERO);
    assert!(matches!(solid.fill, Fill::Unfilled) && solid.stroke.is_none());
}

#[test]
fn progress_selects_the_path() {
    let at = |progress: f64, reverse: bool| locate(DVec2::splat(progress), 2, reverse).map(|position| (position.index, position.t.x));
    assert_eq!(at(0.25, false), Some((0, 0.25)));
    assert_eq!(at(1.5, false), Some((1, 0.5)));
    assert_eq!(at(2., false), Some((1, 1.)));
    assert_eq!(at(7., false), Some((1, 1.)));
    assert_eq!(at(-3., false), Some((0, 0.)));
    assert_eq!(at(0.25, true), Some((1, 0.75)));
    for progress in [-3., 0., 0.25, 1., 1.5, 2., 7.] {
        assert_eq!(at(progress, true), at(2. - progress.clamp(0., 2.), false));
    }
    assert!(locate(DVec2::ZERO, 0, false).is_none());
}

#[test]
fn leads_to_the_path_under_its_transform() {
    let paths = vec![PlacedPath { elements: vec![move_to(0., 0.), line_to(1., 0.)], transform: DAffine2::from_scale(DVec2::splat(3.)) }];
    let (elements, t) = position_on_path(&paths, DVec2::splat(0.5), false).unwrap();
    assert_eq!(text(elements), text(vec![move_to(0., 0.), line_to(3., 0.)]));
    assert_eq!(t, DVec2::splat(0.5));
    assert!(position_on_path(&vec![], DVec2::ZERO, false).is_none());
}

#[test]
fn tangents_are_measured_from_the_axis() {
    let angle = tangent_on_path(DVec2::Y, DVec2::ZERO, false);
    assert!((angle.x - std::f64::consts::FRAC_PI_2).abs() < 1e-9);
    let second = tangent_on_path(DVec2::ZERO, DVec2::Y, true);
    assert!((second.x + std::f64::consts::FRAC_PI_2).abs() < 1e-9);
    let third = tangent_on_path(DVec2::new(1., 1.), DVec2::ZERO, false);
    assert!((third.x - std::f64::consts::FRAC_PI_4).abs() < 1e-9);
    assert_eq!(tangent_on_path(DVec2::ZERO, DVec2::ZERO, false), DVec2::ZERO);
    assert_eq!(tangent_retry(DVec2::splat(1.)), DVec2::splat(1. - 0.001));
    assert_eq!(tangent_retry(DVec2::splat(0.5)), DVec2::splat(0.5 + 0.001));
}

#[test]
fn splitting_a_path_keeps_the_others() {
    let rows = vec![0, 1, 1, 0, 1];
    assert_eq!(split_path(&rows, 2, false, true), vec![PathPiece::Whole(1), PathPiece::Whole(4), PathPiece::First, PathPiece::Second]);
    assert_eq!(split_path(&rows, 0, false, false), vec![PathPiece::Whole(3), PathPiece::Whole(0)]);
}

#[test]
fn splitting_a_closed_path_opens_it() {
    let rectangle = square(0., 100.);
    assert!(is_closed(&rectangle) && !is_closed(&rectangle[..4].to_vec()) && !is_closed(&vec![]));
    assert_eq!(split_path(&vec![0], 0, true, true), vec![PathPiece::Reopened]);
    assert_eq!(split_path(&vec![0], 0, true, false), vec![PathPiece::Whole(0)]);
    let first = vec![move_to(0., 0.), line_to(100., 0.), line_to(100., 50.)];
    let second = vec![move_to(100., 50.), line_to(100., 100.), line_to(0., 100.), line_to(0., 0.)];
    let whole = reopen(&first, &second);
    let expected =
        vec![move_to(100., 50.), line_to(100., 100.), line_to(0., 100.), line_to(0., 0.), line_to(100., 0.), line_to(100., 50.)];
    assert_eq!(text(&whole), text(expected));
    assert!(!is_closed(&whole));
}

#[test]
fn bounding_box() {
    let mut style = PathStyle { fill: Fill::Solid(BLACK), stroke: Some(plain_stroke()) };
    let path = shape_editor::measures::bounding_box(Some((DVec2::NEG_ONE, DVec2::ONE)), &mut style);
    let expected = vec![move_to(-1., -1.), line_to(1., -1.), line_to(1., 1.), line_to(-1., 1.), PathElement::ClosePath];
    assert_eq!(text(path), text(expected));
    assert_eq!(style.stroke.as_ref().map(|stroke| stroke.transform), Some(DAffine2::IDENTITY));
    assert!(shape_editor::measures::bounding_box(None, &mut style).is_empty());
}

#[test]
fn measures_the_box_around_all() {
    let boxes = vec![Some((DVec2::ZERO, DVec2::new(1., 5.))), None, Some((DVec2::new(-2., 1.), DVec2::new(0., 2.)))];
    assert_eq!(dimensions(&boxes), DVec2::new(3., 5.));
    assert_eq!(dimensions(&vec![None]), DVec2::ZERO);
}

#[test]
fn the_center_is_weighted() {
    let weighted = |x: f64, weight: f64| Some(Weighted { center: DVec2::new(x, 0.), weight: DVec2::splat(weight) });
    let shapes = vec![MeasuredShape {
        transform: DAffine2::from_translation(DVec2::Y),
        subpaths: vec![weighted(0., 1.), None, weighted(8., 3.), weighted(100., -5.)],
        positions: vec![DVec2::ZERO, DVec2::new(2., 0.)],
    }];
    assert_eq!(centroid(&shapes, CentroidType::Area), DVec2::new(6., 1.));
    let points_only = vec![MeasuredShape { transform: DAffine2::IDENTITY, subpaths: vec![], positions: vec![DVec2::ZERO, DVec2::new(2., 0.)] }];
    assert_eq!(centroid(&points_only, CentroidType::Length), DVec2::new(1., 0.));
    assert_eq!(centroid(&vec![], CentroidType::Area), DVec2::ZERO);
    let negative = vec![MeasuredShape { transform: DAffine2::IDENTITY, subpaths: vec![weighted(4., -2.)], positions: vec![DVec2::ONE] }];
    assert_eq!(centroid(&negative, CentroidType::Length), DVec2::ONE);
}

#[test]
fn counts_and_looks_inside() {
    assert!(point_inside(&vec![false, true]));
    assert!(!point_inside(&vec![false]));
    assert_eq!(count_elements(&vec!['a', 'b']), 2);
}

#[test]
fn sampling_is_prepared_for_each_path() {
    let paths = vec![square(0., 1.), vec![move_to(0., 0.), line_to(1., 0.)]];
    let lengths: Vec<DVec2> = (1..=5).map(|n| DVec2::splat(n as f64)).collect();
    let scale = DAffine2::from_scale(DVec2::splat(2.));
    let mut style = placed_style();
    let tasks = shape_editor::sampling::sample_polyline(&paths, &mut style, scale, PointSpacingType::Quantity, DVec2::splat(30.), 7, &lengths);
    assert_eq!(tasks[0].segment_lengths, lengths[..4].to_vec());
    assert_eq!(tasks[1].segment_lengths, lengths[4..].to_vec());
    assert_eq!(tasks[0].amount, DVec2::splat(7.));
    assert_eq!(text(&tasks[1].path), text(vec![move_to(0., 0.), line_to(2., 0.)]));
    assert_eq!(stroke_transform(&style), scale);
    let spaced = shape_editor::sampling::sample_polyline(&paths, &mut style, scale, PointSpacingType::Separation, DVec2::splat(30.), 7, &lengths);
    assert_eq!(spaced[1].amount, DVec2::splat(30.));
    let placed = place_samples(&vec![None, Some(vec![move_to(2., 4.)])], scale);
    assert_eq!(text(placed), text(vec![vec![move_to(1., 2.)]]));
}

#[test]
fn points_within_paths_are_numbered() {
    let paths = vec![vec![move_to(0., 0.), line_to(0., 0.)], square(0., 9.)];
    assert!(!encloses(&paths[0]) && encloses(&paths[1]));
    assert_eq!(text(close_at_end(&paths[0])), text(vec![move_to(0., 0.), line_to(0., 0.), PathElement::ClosePath]));
    let found = vec![vec![DVec2::ONE], vec![DVec2::new(2., 2.), DVec2::new(5., 5.)]];
    let mut ids = FreshIds::given(vec![31, 32]);
    let boxed = close_with_box(&paths[1]);
    assert_eq!(boxed.corners, (DVec2::ZERO, DVec2::splat(9.)));
    assert_eq!(text(boxed.path), text(close_at_end(&paths[1])));
    let mut style = placed_style();
    let points = poisson_disk_points(&paths, &mut style, &found, &mut ids);
    assert_eq!(stroke_transform(&style), DAffine2::IDENTITY);
    assert_eq!(points.iter().map(|point| (point.id.0, point.position)).collect::<Vec<_>>(), vec![(31, DVec2::splat(2.)), (32, DVec2::splat(5.))]);
}

#[test]
fn segment_lengths() {
    let cubic = vec![move_to(0., 0.), PathElement::CurveTo(Point::new(0., 0.), Point::new(100., 0.), Point::new(100., 0.))];
    let lengths = subpath_segment_lengths(&vec![PathsRow { paths: vec![cubic], transform: DAffine2::IDENTITY }]);
    assert_eq!(lengths, vec![DVec2::splat(100.)]);
}

#[test]
fn path_length() {
    let row = || PathsRow { paths: vec![square(100., 201.)], transform: DAffine2::from_scale(DVec2::new(2., 2.)) };
    let length = shape_editor::lengths::path_length(&(0..5).map(|_| row()).collect());
    // 101 (each rectangle edge length) * 4 (rectangle perimeter) * 2 (scale) * 5 (number of rows)
    assert_eq!(length, DVec2::splat(101. * 4. * 2. * 5.));
}

#[test]
fn areas_are_scaled() {
    let shapes = vec![ScaledPaths { paths: vec![square(0., 10.)], scale: DVec2::new(2., 3.) }, ScaledPaths { paths: vec![], scale: DVec2::ONE }];
    assert_eq!(area(&shapes), DVec2::splat(600.));
}

#[test]
fn flattens_nested_groups() {
    let shift = |x: f64| DAffine2::from_translation(DVec2::new(x, 0.));
    let inner = GroupRow {
        element: GraphicElement::VectorData(vec![TreeShape { key: 7, transform: shift(1.) }, TreeShape { key: 8, transform: shift(2.) }]),
        transform: shift(10.),
        source_node_id: Some(42),
    };
    let group = GraphicElement::GraphicGroup(vec![
        GroupRow { element: GraphicElement::Raster, transform: shift(0.), source_node_id: None },
        GroupRow { element: GraphicElement::GraphicGroup(vec![inner]), transform: shift(100.), source_node_id: None },
        GroupRow { element: GraphicElement::VectorData(vec![TreeShape { key: 9, transform: shift(3.) }]), transform: shift(0.), source_node_id: None },
    ]);
    let flat = flatten_path(group);
    assert_eq!(flat.iter().map(|shape| shape.key).collect::<Vec<_>>(), vec![7, 8, 9]);
    assert_eq!(flat[0].transform, shift(111.));
    assert_eq!(flat[2].transform, shift(3.));
    assert_eq!(flat[1].seed, (0, 1, 42));
    assert_eq!(flat[2].seed, (2, 0, 0));
    assert_eq!(flattened_style(&flat), Some(9));
    assert_eq!(flat[0].collision_hash_seed(), flat[0].collision_hash_seed());
    assert_ne!(flat[0].collision_hash_seed(), flat[1].collision_hash_seed());
    assert!(flatten_path(GraphicElement::Raster).is_empty());
}

#[test]
fn offsets_are_computed_in_place() {
    let group = ManipulatorGroup { anchor: DVec2::new(1., 2.), in_handle: None, out_handle: Some(DVec2::new(2., 2.)), id: PointId(1) };
    let mut style = PathStyle { fill: Fill::Unfilled, stroke: Some(plain_stroke()) };
    let scale = DAffine2::from_scale(DVec2::splat(2.));
    let subpaths = vec![Subpath { groups: vec![group], closed: false }];
    let task = offset_path(&subpaths, scale, &mut style, DVec2::splat(3.), StrokeJoin::Miter, DVec2::splat(4.));
    assert_eq!(task.subpaths[0].groups[0].anchor, DVec2::new(2., 4.));
    assert_eq!(task.distance, DVec2::splat(-3.));
    assert!(matches!(task.join, OffsetJoin::Miter(limit) if limit == DVec2::splat(4.)));
    assert_eq!(style.stroke.map(|stroke| stroke.transform), Some(DAffine2::IDENTITY));
    let back = place_offsets(&task.subpaths, scale);
    assert_eq!(back[0].groups[0].out_handle, Some(DVec2::new(2., 2.)));
}

/// The path around an ellipse between two corners, from its top on.
fn ellipse(low: f64, high: f64) -> Vec<PathElement> {
    let (middle, offset) = ((low + high) / 2., 0.551784777779014 * (high - low) / 2.);
    let curve = |a: (f64, f64), b: (f64, f64), c: (f64, f64)| PathElement::CurveTo(a.into(), b.into(), c.into());
    vec![
        move_to(middle, low),
        curve((middle + offset, low), (high, middle - offset), (high, middle)),
        curve((high, middle + offset), (middle + offset, high), (middle, high)),
        curve((middle - offset, high), (low, middle + offset), (low, middle)),
        curve((low, middle - offset), (middle - offset, low), (middle, low)),
        PathElement::ClosePath,
    ]
}

#[test]
fn morph() {
    let source = vec![PathsRow { paths: vec![square(0., 100.)], transform: DAffine2::IDENTITY }];
    let target = vec![PathsRow { paths: vec![ellipse(-100., 0.)], transform: DAffine2::IDENTITY }];
    let morphed = try_morph(&source, &target, DVec2::splat(0.5)).unwrap();
    let ends: Vec<Point> = morphed[0].paths[0].iter().filter_map(|element| element.end_point()).take(4).collect();
    assert_eq!(ends, vec![Point::new(-25., -50.), Point::new(50., -25.), Point::new(25., 50.), Point::new(-50., 25.)]);
}

#[test]
fn a_morph_has_as_many_rows_as_the_shorter_table() {
    let row = |x: f64| PathsRow { paths: vec![square(0., 1.)], transform: DAffine2::from_translation(DVec2::new(x, 0.)) };
    let rows = try_morph(&vec![row(5.), row(6.)], &vec![row(7.), row(8.), row(9.)], DVec2::splat(-2.)).unwrap();
    assert_eq!(rows.len(), 2);
    assert!(rows.iter().all(|row| row.transform == DAffine2::IDENTITY && row.time == DVec2::ZERO));
    assert_eq!(rows[0].paths[0][0].end_point(), Some(Point::new(5., 0.)));
    assert!(try_morph(&vec![], &vec![row(1.)], DVec2::ONE).unwrap().is_empty());
    let broken = PathsRow { paths: vec![vec![line_to(1., 1.)]], transform: DAffine2::IDENTITY };
    assert!(try_morph(&vec![broken], &vec![row(1.)], DVec2::ONE).is_none());
}

#[test]
fn new_segments_split_the_path() {
    let path = vec![move_to(0., 0.), line_to(8., 0.)];
    let longer = make_new_segments(&path, 1);
    assert_eq!(segments(&longer).len(), 2);
    assert_eq!(longer[1].end_point(), Some(Point::new(4., 0.)));
    assert_eq!(longer[2].end_point(), Some(Point::new(8., 0.)));
}

#[test]
fn segments_of_a_path() {
    let path = square(0., 1.);
    let drawn = segments(&path);
    assert_eq!(drawn.len(), 4);
    assert_eq!(text(drawn[3]), text(PathSegment::Line(Point::new(0., 1.), Point::new(0., 0.))));
    assert_eq!(text(get_seg(&path, 2)), text(Some(PathSegment::Line(Point::new(1., 0.), Point::new(1., 1.)))));
    assert!(get_seg(&path, 0).is_none());
    let (first, second) = subdivide(PathSegment::Line(Point::new(0., 0.), Point::new(4., 0.)));
    assert_eq!((first.end(), second.start()), (Point::new(2., 0.), Point::new(2., 0.)));
    let cubic = to_cubic(PathSegment::Quad(Point::new(0., 0.), Point::new(3., 3.), Point::new(6., 0.)));
    assert_eq!(cubic.3, Point::new(6., 0.));
    assert!((cubic.1.x - 2.).abs() < 1e-12 && (cubic.1.y - 2.).abs() < 1e-12);
    assert_eq!(first.reverse().start(), first.end());
}

#[test]
fn automatic_tangents_smooth_a_corner() {
    let group = |id: u64, x: f64, y: f64| ManipulatorGroup { anchor: DVec2::new(x, y), in_handle: None, out_handle: None, id: PointId(id) };
    let path = Subpath { groups: vec![group(1, 0., 0.), group(2, 3., 0.), group(3, 6., 0.)], closed: false };
    let smooth = auto_tangents(&path, DAffine2::IDENTITY, DVec2::splat(1.), true);
    assert_eq!(smooth.groups[1].in_handle, Some(DVec2::new(2., 0.)));
    assert_eq!(smooth.groups[1].out_handle, Some(DVec2::new(4., 0.)));
    assert_eq!(smooth.groups[0].out_handle, None);
    assert_eq!(smooth.groups.iter().map(|group| group.anchor.x).collect::<Vec<_>>(), vec![0., 3., 6.]);
    let mut kept = Subpath { groups: path.groups.clone(), closed: false };
    kept.groups[1].in_handle = Some(DVec2::new(3., 2.));
    let preserved = auto_tangents(&kept, DAffine2::IDENTITY, DVec2::splat(1.), true);
    assert_eq!(preserved.groups[1].in_handle, Some(DVec2::new(3., 2.)));
    assert_eq!(preserved.groups[1].out_handle, None);
}

#[test]
fn rounding_doubles_the_corners() {
    let group = |id: u64, x: f64, y: f64| ManipulatorGroup { anchor: DVec2::new(x, y), in_handle: None, out_handle: None, id: PointId(id) };
    let path = Subpath { groups: vec![group(1, 0., 0.), group(2, 100., 0.), group(3, 100., 100.), group(4, 0., 100.)], closed: true };
    let rounding =
        Rounding { radius: DVec2::splat(10.), roundness: DVec2::splat(0.5), edge_length_limit: DVec2::splat(100.), min_angle_threshold: DVec2::splat(5.) };
    let mut id = PointId(10);
    let rounded = round_corners(&path, DAffine2::IDENTITY, rounding, &mut id);
    assert_eq!(rounded.groups.len(), 8);
    let only_sharper = Rounding { min_angle_threshold: DVec2::splat(91.), ..rounding };
    assert_eq!(round_corners(&path, DAffine2::IDENTITY, only_sharper, &mut PointId(10)).groups.len(), 4);
    let reach = 10. / std::f64::consts::FRAC_PI_4.sin();
    assert!((rounded.groups[0].anchor - DVec2::new(0., reach)).length() < 1e-9);
    assert!((rounded.groups[1].anchor - DVec2::new(reach, 0.)).length() < 1e-9);

    let expected = [
        ((0., 14.142), (0., 7.071), (7.071, 0.), (14.142, 0.)),
        ((85.858, 0.), (92.929, 0.), (100., 7.071), (100., 14.142)),
        ((100., 85.858), (100., 92.929), (92.929, 100.), (85.858, 100.)),
        ((14.142, 100.), (7.071, 100.), (0., 92.929), (0., 85.858)),
    ];
    let near = |a: DVec2, b: (f64, f64)| (a - DVec2::new(b.0, b.1)).length() < 1e-3;
    for (pair, (start, start_handle, end_handle, end)) in rounded.groups.chunks(2).zip(expected) {
        assert!(near(pair[0].anchor, start) && near(pair[0].out_handle.unwrap(), start_handle) && pair[0].in_handle.is_none());
        assert!(near(pair[1].anchor, end) && near(pair[1].in_handle.unwrap(), end_handle) && pair[1].out_handle.is_none());
    }
    assert!(rounded.closed);
}
