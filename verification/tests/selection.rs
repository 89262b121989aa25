use glam::{DAffine2, DVec2};
use shape_editor::document::Document;
use shape_editor::ids::{HandleId, LayerNodeIdentifier, ManipulatorPointId, PointId, SegmentId};
use shape_editor::selection::SelectedLayerState;
use shape_editor::shape_state::ShapeState;

fn anchor(id: u64) -> ManipulatorPointId {
    ManipulatorPointId::Anchor(PointId(id))
}

fn primary(id: u64) -> ManipulatorPointId {
    ManipulatorPointId::PrimaryHandle(SegmentId(id))
}

fn end(id: u64) -> ManipulatorPointId {
    ManipulatorPointId::EndHandle(SegmentId(id))
}

fn layer(id: u64) -> LayerNodeIdentifier {
    LayerNodeIdentifier(id)
}

fn two_layers() -> ShapeState {
    let mut state = ShapeState::new();
    state.set_selected_layers(vec![layer(1), layer(2)]);
    state.selected_shape_state.entries[0].state.select_point(anchor(10));
    state.selected_shape_state.entries[0].state.select_point(primary(20));
    state.selected_shape_state.entries[1].state.select_point(end(30));
    state.selected_shape_state.entries[1].state.select_segment(SegmentId(40));
    state
}

#[test]
fn selects_a_point_once() {
    let mut state = SelectedLayerState::new();
    state.select_point(anchor(1));
    state.select_point(anchor(1));
    state.select_point(primary(1));
    assert_eq!(state.selected_points_count(), 2);
    assert!(state.is_point_selected(anchor(1)));
    assert!(!state.is_point_selected(end(1)));
    assert_eq!(state.selected_points(), &vec![anchor(1), primary(1)]);
}

#[test]
fn deselecting_takes_back_selecting() {
    let mut state = SelectedLayerState::new();
    state.select_point(anchor(1));
    state.select_point(anchor(2));
    state.deselect_point(anchor(2));
    state.deselect_point(anchor(3));
    assert_eq!(state.selected_points(), &vec![anchor(1)]);
    state.select_segment(SegmentId(7));
    state.select_segment(SegmentId(8));
    assert_eq!(state.selected_segments_count(), 2);
    state.deselect_segment(SegmentId(7));
    assert!(!state.is_segment_selected(SegmentId(7)));
    assert!(state.is_segment_selected(SegmentId(8)));
}

#[test]
fn clears_points_and_segments_apart() {
    let mut state = SelectedLayerState::new();
    state.select_point(anchor(1));
    state.select_segment(SegmentId(7));
    state.clear_points();
    assert_eq!((state.selected_points_count(), state.selected_segments_count()), (0, 1));
    state.select_point(anchor(1));
    state.clear_segments();
    assert_eq!((state.selected_points_count(), state.selected_segments_count()), (1, 0));
    state.deselect_all_points_in_layer();
    state.deselect_all_segments_in_layer();
    assert_eq!((state.selected_points_count(), state.selected_segments_count()), (0, 0));
}

#[test]
fn hidden_handles_are_selected_again_when_shown() {
    let mut state = SelectedLayerState::new();
    state.select_point(primary(1));
    state.select_point(anchor(2));
    state.select_point(end(3));
    state.ignore_handles(false);
    assert_eq!(state.selected_points(), &vec![anchor(2)]);
    assert!(state.ignore_handles);
    state.ignore_handles(true);
    assert_eq!(state.selected_points(), &vec![anchor(2), primary(1), end(3)]);
    assert_eq!(state.ignored_handle_points.len(), 0);
    assert!(!state.ignore_handles);
}

#[test]
fn hidden_anchors_are_selected_again_when_shown() {
    let mut state = SelectedLayerState::new();
    state.select_point(primary(1));
    state.select_point(anchor(2));
    state.ignore_anchors(false);
    assert_eq!(state.selected_points(), &vec![primary(1)]);
    assert_eq!(state.ignored_anchor_points.items, vec![anchor(2)]);
    state.ignore_anchors(true);
    assert_eq!(state.selected_points(), &vec![primary(1), anchor(2)]);
}

#[test]
fn showing_what_is_shown_changes_nothing() {
    let mut state = SelectedLayerState::new();
    state.select_point(primary(1));
    state.ignore_handles(true);
    assert_eq!(state.selected_points(), &vec![primary(1)]);
    state.ignore_handles(false);
    state.select_point(primary(9));
    state.ignore_handles(false);
    assert_eq!(state.selected_points(), &vec![primary(9)]);
}

#[test]
fn keeps_the_selection_of_layers_that_stay() {
    let mut state = two_layers();
    state.set_selected_layers(vec![layer(3), layer(2)]);
    assert_eq!(state.selected_layers(), vec![layer(2), layer(3)]);
    assert_eq!(state.selected_points(), vec![end(30)]);
    assert!(!state.is_selected_layer(layer(1)));
    assert_eq!(state.selected_points_in_layer(layer(3)).map(|points| points.len()), Some(0));
    assert!(state.selected_points_in_layer(layer(1)).is_none());
}

#[test]
fn deselects_everywhere() {
    let mut state = two_layers();
    assert_eq!(state.selected_points(), vec![anchor(10), primary(20), end(30)]);
    assert_eq!(state.selected_segments(), vec![SegmentId(40)]);
    state.deselect_all_points();
    assert!(state.selected_points().is_empty());
    assert_eq!(state.selected_segments(), vec![SegmentId(40)]);
    state.deselect_all_segments();
    assert!(state.selected_segments().is_empty());
    assert!(state.has_selected_layers());
}

#[test]
fn deselects_anchors_or_handles_only() {
    let mut state = two_layers();
    state.deselect_all_anchors();
    assert_eq!(state.selected_points(), vec![primary(20), end(30)]);
    let mut state = two_layers();
    state.deselect_all_handles();
    assert_eq!(state.selected_points(), vec![anchor(10)]);
}

#[test]
fn selects_an_anchor_by_its_identifier() {
    let mut state = two_layers();
    state.select_anchor_point_by_id(layer(2), PointId(5), true);
    assert_eq!(state.selected_points(), vec![anchor(10), primary(20), end(30), anchor(5)]);
    state.select_anchor_point_by_id(layer(2), PointId(6), false);
    assert_eq!(state.selected_points(), vec![anchor(6)]);
    state.select_anchor_point_by_id(layer(9), PointId(6), false);
    assert!(state.selected_points().is_empty());
}

#[test]
fn selects_points_in_every_layer() {
    let mut state = two_layers();
    state.deselect_all_points();
    state.select_points_by_manipulator_id(&vec![anchor(1), anchor(1)]);
    assert_eq!(state.selected_points(), vec![anchor(1), anchor(1)]);
}

#[test]
fn left_out_points_are_ignored() {
    let mut state = two_layers();
    assert!(!state.is_point_ignored(&primary(20)));
    state.update_selected_handles_status(false);
    assert!(state.is_point_ignored(&primary(20)));
    assert!(!state.is_point_ignored(&anchor(10)));
    assert_eq!(state.selected_points(), vec![anchor(10)]);
    state.update_selected_anchors_status(false);
    assert!(state.is_point_ignored(&anchor(10)));
    assert!(state.selected_points().is_empty());
    state.update_selected_handles_status(true);
    state.update_selected_anchors_status(true);
    assert_eq!(state.selected_points(), vec![primary(20), anchor(10), end(30)]);
}

#[test]
fn nothing_is_left_out_without_layers() {
    let mut state = ShapeState::new();
    state.update_selected_handles_status(false);
    assert!(!state.is_point_ignored(&primary(1)));
    assert!(!state.has_selected_layers());
}

#[test]
fn sorts_layers_as_the_document_does() {
    let state = two_layers();
    let document = Document {
        layers: vec![layer(7), layer(2), layer(1)],
        vectors: vec![],
        document_to_viewport: DAffine2::IDENTITY,
        tilt: DAffine2::IDENTITY,
        hide_handle_distance: DVec2::splat(3.),
        handle_length_factor: DVec2::splat(0.5),
    };
    assert_eq!(state.sorted_selected_layers(&document), vec![layer(2), layer(1)]);
}

#[test]
fn handles_and_their_opposites() {
    let handle = HandleId::primary(SegmentId(3));
    assert_eq!(handle.opposite(), HandleId::end(SegmentId(3)));
    assert_eq!(handle.opposite().opposite(), handle);
    assert_eq!(handle.to_manipulator_point().as_handle(), Some(handle));
    assert_eq!(handle.to_manipulator_point().as_anchor(), None);
}
