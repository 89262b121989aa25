use glam::{DAffine2, DVec2};
use shape_editor::document::{Document, VectorLayer};
use shape_editor::fresh_ids::FreshIds;
use shape_editor::ids::{HandleId, LayerNodeIdentifier, ManipulatorPointId, PointId, SegmentId, StrokeId};
use shape_editor::messages::{Message, VectorModificationType};
use shape_editor::shape_state::ShapeState;
use shape_editor::vector_data::{AnchorPoint, BezierHandles, Segment, VectorData};
use std::collections::VecDeque;

const LAYER: LayerNodeIdentifier = LayerNodeIdentifier(1);

fn points(positions: &[(f64, f64)]) -> Vec<AnchorPoint> {
    positions.iter().enumerate().map(|(i, &(x, y))| AnchorPoint { id: PointId(i as u64 + 1), position: DVec2::new(x, y) }).collect()
}

fn segment(id: u64, start: usize, end: usize, handles: BezierHandles) -> Segment {
    Segment { id: SegmentId(id), start, end, handles, stroke: StrokeId(0) }
}

fn document(vector_data: VectorData) -> Document {
    Document {
        layers: vec![LAYER],
        vectors: vec![VectorLayer { layer: LAYER, vector_data, to_viewport: DAffine2::IDENTITY, to_document: DAffine2::IDENTITY }],
        document_to_viewport: DAffine2::IDENTITY,
        tilt: DAffine2::IDENTITY,
        hide_handle_distance: DVec2::splat(3.),
        handle_length_factor: DVec2::splat(0.5),
    }
}

/// Four points in a row, joined by three straight segments.
fn row() -> VectorData {
    VectorData {
        points: points(&[(0., 0.), (10., 0.), (20., 0.), (30., 0.)]),
        segments: vec![
            segment(11, 0, 1, BezierHandles::Linear),
            segment(12, 1, 2, BezierHandles::Linear),
            segment(13, 2, 3, BezierHandles::Linear),
        ],
        colinear_manipulators: vec![],
        regions: vec![],
    }
}

fn selecting(ids: &[ManipulatorPointId]) -> ShapeState {
    let mut state = ShapeState::new();
    state.set_selected_layers(vec![LAYER]);
    for &id in ids {
        state.selected_shape_state.entries[0].state.select_point(id);
    }
    state
}

fn anchor(id: u64) -> ManipulatorPointId {
    ManipulatorPointId::Anchor(PointId(id))
}

fn change(modification_type: VectorModificationType) -> Message {
    Message::Vector { layer: LAYER, modification_type }
}

fn text(messages: impl IntoIterator<Item = Message>) -> Vec<String> {
    messages.into_iter().map(|message| format!("{message:?}")).collect()
}

#[test]
fn neighbors_of_a_deleted_anchor_are_joined() {
    let mut state = selecting(&[anchor(2)]);
    let mut responses = VecDeque::new();
    state.delete_selected_points(&document(row()), &mut responses);
    let expected = [
        change(VectorModificationType::RemovePoint { id: PointId(2) }),
        change(VectorModificationType::RemoveSegment { id: SegmentId(12) }),
        change(VectorModificationType::RemoveSegment { id: SegmentId(11) }),
        change(VectorModificationType::InsertSegment {
            id: SegmentId(11),
            points: (PointId(1), PointId(3)),
            handles: (Some(DVec2::ZERO), Some(DVec2::ZERO)),
        }),
    ];
    assert_eq!(text(responses), text(expected));
    assert!(state.selected_points().is_empty());
}

#[test]
fn a_chain_of_deleted_anchors_is_bridged_once() {
    let mut state = selecting(&[anchor(2), anchor(3)]);
    let mut responses = VecDeque::new();
    state.delete_selected_points(&document(row()), &mut responses);
    let joined: Vec<_> = responses
        .iter()
        .filter_map(|message| match message {
            Message::Vector { modification_type: VectorModificationType::InsertSegment { points, .. }, .. } => Some(*points),
            _ => None,
        })
        .collect();
    assert_eq!(joined, vec![(PointId(1), PointId(4))]);
}

#[test]
fn a_deleted_loop_is_not_joined() {
    let mut data = row();
    data.segments.push(segment(14, 3, 0, BezierHandles::Linear));
    let mut state = selecting(&[anchor(1), anchor(2), anchor(3), anchor(4)]);
    let mut responses = VecDeque::new();
    state.delete_selected_points(&document(data), &mut responses);
    let joins = responses
        .iter()
        .any(|message| matches!(message, Message::Vector { modification_type: VectorModificationType::InsertSegment { .. }, .. }));
    assert!(!joins);
    let removed = responses
        .iter()
        .filter(|message| matches!(message, Message::Vector { modification_type: VectorModificationType::RemovePoint { .. }, .. }))
        .count();
    assert_eq!(removed, 4);
}

#[test]
fn an_anchor_with_a_selected_segment_is_not_bridged() {
    let mut state = selecting(&[anchor(2)]);
    state.selected_shape_state.entries[0].state.select_segment(SegmentId(11));
    let mut responses = VecDeque::new();
    state.delete_selected_points(&document(row()), &mut responses);
    assert_eq!(responses.len(), 3);
}

#[test]
fn a_deleted_handle_goes_back_to_its_anchor() {
    let mut data = row();
    let curved = BezierHandles::Cubic { handle_start: DVec2::new(1., 1.), handle_end: DVec2::new(9., 1.) };
    data.segments[0].handles = curved;
    let pair = (HandleId::end(SegmentId(11)), HandleId::primary(SegmentId(12)));
    data.colinear_manipulators.push(pair);
    let mut state = selecting(&[ManipulatorPointId::EndHandle(SegmentId(11))]);
    let mut responses = VecDeque::new();
    state.delete_selected_points(&document(data), &mut responses);
    let expected = [
        change(VectorModificationType::SetEndHandle { segment: SegmentId(11), relative_position: DVec2::ZERO }),
        change(VectorModificationType::SetG1Continuous { handles: pair, enabled: false }),
    ];
    assert_eq!(text(responses), text(expected));
}

#[test]
fn bridges_keep_the_far_handles_in_line() {
    let mut data = row();
    data.segments[0].handles = BezierHandles::Cubic { handle_start: DVec2::new(1., 2.), handle_end: DVec2::new(9., 2.) };
    data.segments[1].handles = BezierHandles::Cubic { handle_start: DVec2::new(11., -2.), handle_end: DVec2::new(19., -2.) };
    data.segments[2].handles = BezierHandles::Cubic { handle_start: DVec2::new(21., 2.), handle_end: DVec2::new(29., 2.) };
    let far = (HandleId::end(SegmentId(12)), HandleId::primary(SegmentId(13)));
    data.colinear_manipulators.push(far);
    let mut state = selecting(&[anchor(2)]);
    let mut responses = VecDeque::new();
    state.delete_selected_points(&document(data), &mut responses);
    let tail: Vec<Message> = responses.iter().copied().skip(responses.len() - 2).collect();
    let expected = [
        change(VectorModificationType::InsertSegment {
            id: SegmentId(11),
            points: (PointId(1), PointId(3)),
            handles: (Some(DVec2::new(1., 2.)), Some(DVec2::new(-1., -2.))),
        }),
        change(VectorModificationType::SetG1Continuous {
            handles: (HandleId::primary(SegmentId(13)), HandleId::end(SegmentId(11))),
            enabled: true,
        }),
    ];
    assert_eq!(text(tail), text(expected));
}

#[test]
fn deleting_a_segment_takes_its_loose_ends() {
    let mut state = ShapeState::new();
    state.set_selected_layers(vec![LAYER]);
    state.selected_shape_state.entries[0].state.select_segment(SegmentId(11));
    let mut responses = VecDeque::new();
    state.delete_selected_segments(&document(row()), &mut responses);
    let expected = [
        change(VectorModificationType::RemoveSegment { id: SegmentId(11) }),
        change(VectorModificationType::RemovePoint { id: PointId(1) }),
    ];
    assert_eq!(text(responses), text(expected));
}

#[test]
fn dissolving_a_segment_in_the_middle_keeps_its_ends() {
    let state = ShapeState::new();
    let mut responses = VecDeque::new();
    state.dissolve_segment(&mut responses, LAYER, &row(), SegmentId(12), (PointId(2), PointId(3)));
    assert_eq!(text(responses), text([change(VectorModificationType::RemoveSegment { id: SegmentId(12) })]));
}

#[test]
fn nothing_is_deleted_in_a_layer_without_a_shape() {
    let mut state = ShapeState::new();
    state.set_selected_layers(vec![LayerNodeIdentifier(9)]);
    state.selected_shape_state.entries[0].state.select_point(anchor(2));
    let mut responses = VecDeque::new();
    state.delete_selected_points(&document(row()), &mut responses);
    assert!(responses.is_empty());
    assert_eq!(state.selected_points(), vec![anchor(2)]);
}

#[test]
fn breaking_a_path_adds_points_for_its_ends() {
    let state = selecting(&[anchor(2)]);
    let mut ids = FreshIds::given(vec![100, 101, 102]);
    let mut responses = VecDeque::new();
    state.break_path_at_selected_point(&document(row()), &mut ids, &mut responses);
    let expected = [
        change(VectorModificationType::InsertPoint { id: PointId(100), position: DVec2::new(10., 0.) }),
        change(VectorModificationType::SetEndPoint { segment: SegmentId(11), id: PointId(100) }),
    ];
    assert_eq!(text(responses), text(expected));
    assert_eq!(ids.used, 1);
}

#[test]
fn breaking_by_deletion_removes_the_point() {
    let mut state = selecting(&[anchor(2)]);
    let mut responses = VecDeque::new();
    state.delete_point_and_break_path(&document(row()), &mut responses);
    let removed = responses.iter().any(|message| {
        matches!(message, Message::Vector { modification_type: VectorModificationType::RemovePoint { id: PointId(2) }, .. })
    });
    let joins = responses
        .iter()
        .any(|message| matches!(message, Message::Vector { modification_type: VectorModificationType::InsertSegment { .. }, .. }));
    assert!(removed);
    assert!(!joins);
}

#[test]
fn closing_a_path_joins_its_two_ends() {
    let state = selecting(&[anchor(1), anchor(4)]);
    let mut ids = FreshIds::given(vec![77]);
    let mut responses = VecDeque::new();
    state.close_selected_path(&document(row()), &mut ids, &mut responses);
    let joined: Vec<_> = responses
        .iter()
        .filter_map(|message| match message {
            Message::Vector { modification_type: VectorModificationType::InsertSegment { id, points, .. }, .. } => Some((*id, *points)),
            _ => None,
        })
        .collect();
    assert_eq!(joined.len(), 1);
    assert_eq!(joined[0].0, SegmentId(77));
    assert!(joined[0].1 == (PointId(1), PointId(4)) || joined[0].1 == (PointId(4), PointId(1)));
}

#[test]
fn handles_are_no_longer_kept_in_line() {
    let mut data = row();
    let pair = (HandleId::end(SegmentId(11)), HandleId::primary(SegmentId(12)));
    data.colinear_manipulators.push(pair);
    let state = selecting(&[anchor(2)]);
    let mut responses = VecDeque::new();
    state.disable_colinear_handles_state_on_selected(&document(data), &mut responses);
    let release = change(VectorModificationType::SetG1Continuous { handles: pair, enabled: false });
    assert_eq!(text(responses), text([release, release]));
}

#[test]
fn finds_what_is_at_a_point() {
    let data = row();
    assert_eq!(data.position_from_id(PointId(2)), Some(DVec2::new(10., 0.)));
    assert_eq!(data.position_from_id(PointId(9)), None);
    assert_eq!(data.all_connected(PointId(2)), vec![HandleId::primary(SegmentId(12)), HandleId::end(SegmentId(11))]);
    assert_eq!(data.end_connected(PointId(2)), vec![SegmentId(11)]);
    assert_eq!(data.connected_points(PointId(2)), vec![PointId(1), PointId(3)]);
    assert_eq!(data.other_point(SegmentId(11), PointId(2)), Some(PointId(1)));
    assert_eq!(data.segment_start_from_id(SegmentId(12)), Some(PointId(2)));
    assert_eq!(anchor(2).get_handle_pair(&data), Some((HandleId::primary(SegmentId(12)), HandleId::end(SegmentId(11)))));
}
