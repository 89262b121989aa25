use glam::{DAffine2, DVec2};
use shape_editor::document::{Document, VectorLayer};
use shape_editor::fresh_ids::FreshIds;
use shape_editor::ids::{HandleId, LayerNodeIdentifier, ManipulatorPointId, PointId, SegmentId, StrokeId};
use shape_editor::messages::{Message, VectorModificationType};
use shape_editor::picking::ManipulatorPointInfo;
use shape_editor::region::{LayerTests, Region, SegmentTests};
use shape_editor::segment::{CurveAt, HandleAdjustment, LayerProjections, SegmentProjection};
use shape_editor::shape_state::ShapeState;
use shape_editor::snapping::SnapOutcome;
use shape_editor::tool::{PathSnapSource, SelectionChange, SelectionMode, SelectionShape};
use shape_editor::vector_data::{AnchorPoint, Bezier, BezierHandles, Segment, VectorData};
use std::collections::VecDeque;

const LAYER: LayerNodeIdentifier = LayerNodeIdentifier(1);

fn segment(id: u64, start: usize, end: usize, handles: BezierHandles) -> Segment {
    Segment { id: SegmentId(id), start, end, handles, stroke: StrokeId(0) }
}

fn points(positions: &[(f64, f64)]) -> Vec<AnchorPoint> {
    positions.iter().enumerate().map(|(i, &(x, y))| AnchorPoint { id: PointId(i as u64 + 1), position: DVec2::new(x, y) }).collect()
}

/// A curve and a line that starts where it ends.
fn path() -> VectorData {
    VectorData {
        points: points(&[(0., 0.), (100., 0.), (200., 0.)]),
        segments: vec![
            segment(11, 0, 1, BezierHandles::Cubic { handle_start: DVec2::new(0., 50.), handle_end: DVec2::new(100., 50.) }),
            segment(12, 1, 2, BezierHandles::Linear),
        ],
        colinear_manipulators: vec![],
        regions: vec![],
    }
}

fn document(vector_data: VectorData) -> Document {
    Document {
        layers: vec![LAYER],
        vectors: vec![VectorLayer { layer: LAYER, vector_data, to_viewport: DAffine2::IDENTITY, to_document: DAffine2::IDENTITY }],
        document_to_viewport: DAffine2::IDENTITY,
        tilt: DAffine2::IDENTITY,
        hide_handle_distance: DVec2::splat(3.),
        handle_length_factor: DVec2::splat(0.5),
    }
}

fn selecting(ids: &[ManipulatorPointId]) -> ShapeState {
    let mut state = ShapeState::new();
    state.set_selected_layers(vec![LAYER]);
    for &id in ids {
        state.selected_shape_state.entries[0].state.select_point(id);
    }
    state
}

fn anchor(id: u64) -> ManipulatorPointId {
    ManipulatorPointId::Anchor(PointId(id))
}

fn shown(id: ManipulatorPointId) -> Vec<ManipulatorPointInfo> {
    vec![ManipulatorPointInfo { layer: LAYER, point_id: id }]
}

fn straight(start: DVec2, end: DVec2) -> Bezier {
    Bezier { start, end, handles: BezierHandles::Linear }
}

/// The middle of a straight line.
fn middle(start: DVec2, end: DVec2) -> CurveAt {
    let point = (start + end) / 2.;
    CurveAt { point, first: straight(start, point), second: straight(point, end) }
}

fn projections(points: [DVec2; 2]) -> Vec<LayerProjections> {
    let ends = [(DVec2::ZERO, DVec2::new(100., 0.)), (DVec2::new(100., 0.), DVec2::new(200., 0.))];
    let segments = points
        .iter()
        .zip(ends)
        .map(|(&point, (start, end))| SegmentProjection {
            curve: CurveAt { point, first: straight(start, point), second: straight(point, end) },
            chord: middle(start, end),
        })
        .collect();
    vec![LayerProjections { layer: LAYER, segments }]
}

#[test]
fn picks_the_nearest_point() {
    let document = document(path());
    let handle = ManipulatorPointId::PrimaryHandle(SegmentId(11));
    assert_eq!(ShapeState::closest_point_in_layer(&document, LAYER, DVec2::new(1., 45.)).map(|found| found.0), Some(handle));
    assert_eq!(ShapeState::closest_point_in_layer(&document, LAYER, DVec2::new(190., 5.)).map(|found| found.0), Some(anchor(3)));
    assert!(ShapeState::closest_point_in_layer(&document, LayerNodeIdentifier(5), DVec2::ZERO).is_none());
}

#[test]
fn a_handle_on_its_anchor_is_not_picked() {
    let mut data = path();
    data.segments[0].handles = BezierHandles::Cubic { handle_start: DVec2::new(1., 1.), handle_end: DVec2::new(100., 50.) };
    let found = ShapeState::closest_point_in_layer(&document(data), LAYER, DVec2::new(1., 1.));
    assert_eq!(found.map(|found| found.0), Some(anchor(1)));
}

#[test]
fn the_distance_at_which_handles_hide_is_given() {
    let handle = ManipulatorPointId::PrimaryHandle(SegmentId(11));
    let picked = |distance: f64| {
        let mut data = path();
        data.segments[0].handles = BezierHandles::Cubic { handle_start: DVec2::new(3., 4.), handle_end: DVec2::new(100., 50.) };
        let document = Document { hide_handle_distance: DVec2::splat(distance), ..document(data) };
        ShapeState::closest_point_in_layer(&document, LAYER, DVec2::new(3., 4.)).map(|found| found.0)
    };
    assert_eq!(picked(4.9), Some(handle));
    // At the distance itself a handle is not shown.
    assert_eq!(picked(5.), Some(anchor(1)));
    assert_eq!(picked(5.1), Some(anchor(1)));
}

#[test]
fn only_points_within_the_threshold_are_found() {
    let mut state = selecting(&[]);
    let document = document(path());
    assert_eq!(state.find_nearest_point_indices(&document, DVec2::new(195., 0.), DVec2::splat(10.)), Some((LAYER, anchor(3))));
    assert_eq!(state.find_nearest_point_indices(&document, DVec2::new(150., 0.), DVec2::splat(10.)), None);
    let threshold = DVec2::splat(10.);
    let near = DVec2::new(195., 0.);
    assert_eq!(state.find_nearest_visible_point_indices(&document, near, threshold, &vec![]), None);
    assert_eq!(state.find_nearest_visible_point_indices(&document, near, threshold, &shown(anchor(3))), Some((LAYER, anchor(3))));
    assert_eq!(ShapeState::new().find_nearest_point_indices(&document, near, threshold), None);
}

#[test]
fn a_clicked_point_is_selected() {
    let mut state = selecting(&[anchor(1)]);
    let document = document(path());
    let (mouse, threshold) = (DVec2::new(203., 4.), DVec2::splat(10.));
    let info = state.change_point_selection(&document, mouse, threshold, false, &shown(anchor(3))).flatten().unwrap();
    assert_eq!(info.offset, DVec2::new(3., 4.));
    assert_eq!(info.points.len(), 1);
    assert_eq!(state.selected_points(), vec![anchor(3)]);
    state.change_point_selection(&document, DVec2::ZERO, threshold, true, &shown(anchor(1)));
    assert_eq!(state.selected_points(), vec![anchor(3), anchor(1)]);
    state.change_point_selection(&document, DVec2::ZERO, threshold, false, &shown(anchor(1)));
    assert_eq!(state.selected_points(), vec![anchor(3), anchor(1)]);
    assert!(state.change_point_selection(&document, DVec2::new(150., 90.), threshold, false, &vec![]).is_none());
}

#[test]
fn tells_whether_the_point_was_selected() {
    let mut state = selecting(&[anchor(3)]);
    let document = document(path());
    let (mouse, threshold) = (DVec2::new(203., 4.), DVec2::splat(10.));
    let (selected, info) = state.get_point_selection_state(&document, mouse, threshold, &shown(anchor(3)), true).unwrap();
    assert!(selected);
    assert_eq!(info.unwrap().offset, DVec2::new(3., 4.));
    let (selected, _) = state.get_point_selection_state(&document, DVec2::ZERO, threshold, &shown(anchor(1)), true).unwrap();
    assert!(!selected);
    assert!(state.get_point_selection_state(&document, mouse, threshold, &shown(anchor(3)), false).is_none());
    assert!(state.get_point_selection_state(&document, mouse, threshold, &vec![], true).is_none());
    assert_eq!(state.selected_points(), vec![anchor(3)]);
}

#[test]
fn selects_what_is_connected() {
    let mut data = path();
    data.points.push(AnchorPoint { id: PointId(4), position: DVec2::new(500., 0.) });
    data.points.push(AnchorPoint { id: PointId(5), position: DVec2::new(600., 0.) });
    data.segments.push(segment(13, 3, 4, BezierHandles::Linear));
    let document = document(data);
    let mut state = selecting(&[anchor(5)]);
    state.select_connected(&document, LAYER, &vec![PointId(1)], true, true);
    let selected = state.selected_points();
    assert_eq!(selected.len(), 3);
    assert!([1, 2, 3].into_iter().all(|id| selected.contains(&anchor(id))));
    assert_eq!(state.selected_segments(), vec![SegmentId(11), SegmentId(12)]);
    let mut state = selecting(&[]);
    state.select_connected(&document, LAYER, &vec![], true, false);
    assert_eq!(state.selected_points().len(), 5);
    assert!(state.selected_segments().is_empty());
}

#[test]
fn selects_all_anchors() {
    let mut state = selecting(&[ManipulatorPointId::EndHandle(SegmentId(11))]);
    state.select_all_anchors_in_selected_layers(&document(path()));
    assert_eq!(state.selected_points(), vec![anchor(1), anchor(2), anchor(3)]);
    let mut state = ShapeState::new();
    state.select_all_anchors_in_layer(&document(path()), LAYER);
    assert_eq!(state.selected_points(), vec![anchor(1), anchor(2), anchor(3)]);
}

#[test]
fn finds_the_nearest_segment() {
    let state = selecting(&[]);
    let mouse = DVec2::new(150., 3.);
    let found = state.upper_closest_segment(&document(path()), mouse, DVec2::splat(5.), &projections([DVec2::new(100., 0.), DVec2::new(150., 0.)]));
    let found = found.unwrap();
    assert_eq!(found.segment(), SegmentId(12));
    assert_eq!(found.points(), (PointId(2), PointId(3)));
    assert_eq!(found.layer(), LAYER);
    assert_eq!(found.closest_point_to_viewport(), DVec2::new(150., 0.));
    assert_eq!(found.distance_squared(mouse), DVec2::splat(9.));
    assert!(!found.too_far(mouse, DVec2::splat(3.)));
    assert!(found.too_far(mouse, DVec2::splat(2.)));
    let far = state.closest_segment(&document(path()), LAYER, mouse, DVec2::splat(2.), &projections([DVec2::new(100., 0.), DVec2::new(150., 0.)]));
    assert!(far.is_none());
    assert!(ShapeState::new().upper_closest_segment(&document(path()), mouse, DVec2::splat(5.), &vec![]).is_none());
}

#[test]
fn an_inserted_point_splits_the_segment() {
    let mut data = path();
    let pair = (HandleId::end(SegmentId(11)), HandleId::primary(SegmentId(12)));
    data.colinear_manipulators.push(pair);
    let state = selecting(&[anchor(1)]);
    let mouse = DVec2::new(150., 1.);
    let found = state
        .upper_closest_segment(&document(data), mouse, DVec2::splat(5.), &projections([DVec2::new(100., 0.), DVec2::new(150., 0.)]))
        .unwrap();
    let mut ids = FreshIds::given(vec![71, 72, 73]);
    let mut responses = VecDeque::new();
    let mut shape_editor = selecting(&[anchor(1)]);
    found.adjusted_insert_and_select(&mut shape_editor, &mut ids, &mut responses, false);
    let inserted: Vec<_> = responses
        .iter()
        .filter_map(|message| match message {
            Message::Vector { modification_type: VectorModificationType::InsertPoint { id, position }, .. } => Some((*id, *position)),
            _ => None,
        })
        .collect();
    assert_eq!(inserted.len(), 1);
    assert_eq!(inserted[0].1, DVec2::new(150., 0.));
    assert_eq!(shape_editor.selected_points(), vec![ManipulatorPointId::Anchor(inserted[0].0)]);
    let joins: Vec<_> = responses
        .iter()
        .filter_map(|message| match message {
            Message::Vector { modification_type: VectorModificationType::InsertSegment { points, .. }, .. } => Some(*points),
            _ => None,
        })
        .collect();
    assert_eq!(joins, vec![(PointId(2), inserted[0].0), (inserted[0].0, PointId(3))]);
    assert_eq!(ids.used, 3);
}

#[test]
fn follows_the_mouse_along_the_segment() {
    let state = selecting(&[]);
    let mouse = DVec2::new(150., 1.);
    let mut found = state
        .upper_closest_segment(&document(path()), mouse, DVec2::splat(5.), &projections([DVec2::new(100., 0.), DVec2::new(150., 0.)]))
        .unwrap();
    let scale = DAffine2::from_scale(DVec2::splat(2.));
    assert_eq!(found.layer_position(scale, DVec2::new(240., 0.)), DVec2::new(120., 0.));
    found.update_closest_point(scale, middle(DVec2::new(100., 0.), DVec2::new(140., 0.)));
    assert_eq!(found.closest_point_document(), DVec2::new(120., 0.));
    assert_eq!(found.closest_point_to_viewport(), DVec2::new(240., 0.));
    assert_eq!(found.closest_point(scale), DVec2::new(240., 0.));
    let direction = found.calculate_perp(&document(path()), DAffine2::IDENTITY);
    assert!(direction.x.abs() < 1e-9 && (direction.y.abs() - 1.).abs() < 1e-9);
}

#[test]
fn molding_moves_both_handles() {
    let state = selecting(&[]);
    let document = document(path());
    let top = DVec2::new(50., 37.5);
    let mut projections = projections([top, DVec2::new(150., 0.)]);
    projections[0].segments[0].curve.first.handles = BezierHandles::Cubic { handle_start: DVec2::new(0., 25.), handle_end: DVec2::new(25., 37.5) };
    projections[0].segments[0].curve.second.handles = BezierHandles::Cubic { handle_start: DVec2::new(75., 37.5), handle_end: DVec2::new(100., 25.) };
    let found = state.upper_closest_segment(&document, DVec2::new(50., 38.), DVec2::splat(5.), &projections).unwrap();
    assert_eq!(found.segment(), SegmentId(11));
    assert_eq!(found.handle_positions(DAffine2::IDENTITY), (Some(DVec2::new(25., 37.5)), Some(DVec2::new(75., 37.5))));
    let mut responses = VecDeque::new();
    let mut adjustments: Vec<HandleAdjustment> = vec![];
    let handles = (DVec2::new(0., 50.), DVec2::new(100., 50.));
    let kept =
        found.mold_handle_positions(&document, DAffine2::IDENTITY, &mut responses, &mut adjustments, handles, DVec2::new(50., 50.), false, (None, None), None);
    let moved: Vec<DVec2> = responses
        .iter()
        .filter_map(|message| match message {
            Message::Vector { modification_type: VectorModificationType::SetPrimaryHandle { relative_position, .. }, .. } => Some(*relative_position),
            Message::Vector { modification_type: VectorModificationType::SetEndHandle { relative_position, .. }, .. } => Some(*relative_position),
            _ => None,
        })
        .collect();
    assert_eq!(moved, vec![DVec2::new(0., 62.5), DVec2::new(0., 62.5)]);
    assert!(kept.is_none());
    assert_eq!(adjustments.len(), 2);
    let restored = (Some(HandleId::end(SegmentId(9))), None);
    let broken =
        found.mold_handle_positions(&document, DAffine2::IDENTITY, &mut responses, &mut adjustments, handles, DVec2::new(50., 50.), true, restored, None);
    assert_eq!(broken, Some(restored));
}

fn outside_of_lasso(bounds: (DVec2, DVec2)) -> SegmentTests {
    SegmentTests { bounds, crosses_box: false, samples_in_lasso: vec![false], start_handle_in_lasso: false, end_handle_in_lasso: false }
}

fn tests_of_path() -> Vec<LayerTests> {
    let bounds = [(DVec2::ZERO, DVec2::new(100., 37.5)), (DVec2::new(100., 0.), DVec2::new(200., 0.))];
    vec![LayerTests { layer: LAYER, segments: bounds.into_iter().map(outside_of_lasso).collect(), anchors_in_lasso: vec![false, true, false] }]
}

#[test]
fn a_box_selects_the_anchors_within() {
    let mut state = selecting(&[anchor(1)]);
    let visible: Vec<ManipulatorPointInfo> = [1, 2, 3].into_iter().map(|id| ManipulatorPointInfo { layer: LAYER, point_id: anchor(id) }).collect();
    let region = Region {
        shape: SelectionShape::Box((DVec2::new(90., -10.), DVec2::new(210., 10.))),
        change: SelectionChange::Extend,
        mode: SelectionMode::Enclosed,
        select_segments: false,
    };
    state.select_all_in_shape(&document(path()), region, &tests_of_path(), &visible);
    assert_eq!(state.selected_points(), vec![anchor(1), anchor(2), anchor(3)]);
    let clearing = Region { change: SelectionChange::Clear, ..region };
    state.select_all_in_shape(&document(path()), clearing, &tests_of_path(), &visible);
    assert_eq!(state.selected_points(), vec![anchor(2), anchor(3)]);
    let shrinking = Region { change: SelectionChange::Shrink, ..region };
    state.select_all_in_shape(&document(path()), shrinking, &tests_of_path(), &visible);
    assert!(state.selected_points().is_empty());
}

#[test]
fn a_lasso_selects_by_its_tests() {
    let mut state = selecting(&[]);
    let visible: Vec<ManipulatorPointInfo> = [1, 2, 3].into_iter().map(|id| ManipulatorPointInfo { layer: LAYER, point_id: anchor(id) }).collect();
    let lasso = vec![DVec2::new(90., -10.), DVec2::new(110., -10.), DVec2::new(100., 10.)];
    let region =
        Region { shape: SelectionShape::Lasso(&lasso), change: SelectionChange::Clear, mode: SelectionMode::Touched, select_segments: false };
    state.select_all_in_shape(&document(path()), region, &tests_of_path(), &visible);
    assert_eq!(state.selected_points(), vec![anchor(2)]);
}

#[test]
fn a_box_selects_the_segments_that_it_encloses() {
    let mut state = selecting(&[]);
    let region = Region {
        shape: SelectionShape::Box((DVec2::new(90., -10.), DVec2::new(210., 10.))),
        change: SelectionChange::Extend,
        mode: SelectionMode::Enclosed,
        select_segments: true,
    };
    state.select_all_in_shape(&document(path()), region, &tests_of_path(), &vec![]);
    assert_eq!(state.selected_segments(), vec![SegmentId(12)]);
}

#[test]
fn snaps_by_the_best_candidate() {
    let state = selecting(&[anchor(2), anchor(3)]);
    let mut document = document(path());
    document.document_to_viewport = DAffine2::from_scale(DVec2::splat(2.));
    let (mouse, previous) = (DVec2::new(10., 0.), DVec2::new(4., 0.));
    let candidates = state.snap_candidates(&document, mouse, previous);
    assert_eq!(candidates.len(), 2);
    assert_eq!(candidates[0].document_point, DVec2::new(103., 0.));
    assert_eq!(candidates[0].source, PathSnapSource::AnchorPointWithFreeHandles);
    assert_eq!(candidates[0].neighbors, vec![DVec2::ZERO]);
    let outcomes = vec![
        SnapOutcome { snapped_point_document: DVec2::new(104., 0.), is_better: true },
        SnapOutcome { snapped_point_document: DVec2::new(300., 0.), is_better: false },
    ];
    let snap = state.snap(&document, mouse, previous, &outcomes);
    assert_eq!(snap.viewport_delta, DVec2::new(8., 0.));
    assert_eq!(snap.best, Some(0));
    let free = vec![SnapOutcome { snapped_point_document: DVec2::ZERO, is_better: false }, SnapOutcome { snapped_point_document: DVec2::ZERO, is_better: false }];
    let snap = state.snap(&document, mouse, previous, &free);
    assert_eq!(snap.viewport_delta, DVec2::new(6., 0.));
    assert_eq!(snap.best, None);
    assert_eq!(snap.mouse_document, DVec2::new(5., 0.));
}
