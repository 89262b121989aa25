use glam::{DAffine2, DVec2};
use shape_editor::document::{Document, VectorLayer};
use shape_editor::handles::{handle_angle, handle_direction, HandleAngles, HandleDirection};
use shape_editor::ids::{HandleId, LayerNodeIdentifier, ManipulatorPointId, PointId, SegmentId, StrokeId};
use shape_editor::messages::{Message, VectorModificationType};
use shape_editor::movement::Drag;
use shape_editor::shape_state::ShapeState;
use shape_editor::tool::{ManipulatorAngle, PointSelectState};
use shape_editor::vector_data::{AnchorPoint, BezierHandles, Segment, VectorData};
use std::collections::VecDeque;

const LAYER: LayerNodeIdentifier = LayerNodeIdentifier(1);

fn cubic(start: (f64, f64), end: (f64, f64)) -> BezierHandles {
    BezierHandles::Cubic { handle_start: DVec2::new(start.0, start.1), handle_end: DVec2::new(end.0, end.1) }
}

fn segment(id: u64, start: usize, end: usize, handles: BezierHandles) -> Segment {
    Segment { id: SegmentId(id), start, end, handles, stroke: StrokeId(0) }
}

/// Three points, joined by two curves whose handles at the middle point are kept in line.
fn wave() -> VectorData {
    let points = [(0., 0.), (10., 0.), (20., 0.)];
    VectorData {
        points: points.iter().enumerate().map(|(i, &(x, y))| AnchorPoint { id: PointId(i as u64 + 1), position: DVec2::new(x, y) }).collect(),
        segments: vec![segment(11, 0, 1, cubic((3., 3.), (7., 4.))), segment(12, 1, 2, cubic((13., -4.), (17., -3.)))],
        colinear_manipulators: vec![(HandleId::end(SegmentId(11)), HandleId::primary(SegmentId(12)))],
        regions: vec![],
    }
}

fn document(vector_data: VectorData) -> Document {
    Document {
        layers: vec![LAYER],
        vectors: vec![VectorLayer { layer: LAYER, vector_data, to_viewport: DAffine2::IDENTITY, to_document: DAffine2::IDENTITY }],
        document_to_viewport: DAffine2::IDENTITY,
        tilt: DAffine2::IDENTITY,
        hide_handle_distance: DVec2::splat(3.),
        handle_length_factor: DVec2::splat(0.5),
    }
}

fn selecting(ids: &[ManipulatorPointId]) -> ShapeState {
    let mut state = ShapeState::new();
    state.set_selected_layers(vec![LAYER]);
    for &id in ids {
        state.selected_shape_state.entries[0].state.select_point(id);
    }
    state
}

fn anchor(id: u64) -> ManipulatorPointId {
    ManipulatorPointId::Anchor(PointId(id))
}

fn change(modification_type: VectorModificationType) -> Message {
    Message::Vector { layer: LAYER, modification_type }
}

fn text(messages: impl IntoIterator<Item = Message>) -> Vec<String> {
    messages.into_iter().map(|message| format!("{message:?}")).collect()
}

fn drag(delta: DVec2) -> Drag {
    Drag {
        delta,
        equidistant: false,
        in_viewport_space: true,
        was_alt_dragging: false,
        opposite_handle_position: None,
        skip_opposite_handle: false,
    }
}

#[test]
fn moving_an_anchor_takes_the_handle_of_a_quadratic_curve() {
    let mut data = wave();
    data.segments[0].handles = BezierHandles::Quadratic { handle: DVec2::new(5., 5.) };
    let state = ShapeState::new();
    let mut responses = VecDeque::new();
    state.move_anchor(PointId(2), &data, DVec2::new(1., 2.), LAYER, None, &mut responses);
    let expected = [
        change(VectorModificationType::ApplyPointDelta { point: PointId(2), delta: DVec2::new(1., 2.) }),
        change(VectorModificationType::SetPrimaryHandle { segment: SegmentId(11), relative_position: DVec2::new(6., 7.) }),
    ];
    assert_eq!(text(responses), text(expected));
    let selected = selecting(&[anchor(1)]);
    let mut responses = VecDeque::new();
    state.move_anchor(PointId(2), &data, DVec2::ONE, LAYER, Some(&selected.selected_shape_state.entries[0].state), &mut responses);
    assert_eq!(responses.len(), 1);
}

#[test]
fn repositions_an_anchor_in_the_space_of_its_layer() {
    let mut document = document(wave());
    document.vectors[0].to_document = DAffine2::from_scale(DVec2::splat(2.));
    let state = ShapeState::new();
    let mut responses = VecDeque::new();
    let done = state.reposition_control_point(&anchor(2), &document, DVec2::new(24., 6.), LAYER, &mut responses);
    assert_eq!(done, Some(()));
    let expected = [change(VectorModificationType::ApplyPointDelta { point: PointId(2), delta: DVec2::new(2., 3.) })];
    assert_eq!(text(responses), text(expected));
}

#[test]
fn a_repositioned_handle_is_no_longer_in_line() {
    let state = ShapeState::new();
    let mut responses = VecDeque::new();
    let point = ManipulatorPointId::EndHandle(SegmentId(11));
    state.reposition_control_point(&point, &document(wave()), DVec2::new(8., 6.), LAYER, &mut responses);
    let expected = [
        change(VectorModificationType::ApplyEndDelta { segment: SegmentId(11), delta: DVec2::new(1., 2.) }),
        change(VectorModificationType::SetG1Continuous {
            handles: (HandleId::end(SegmentId(11)), HandleId::primary(SegmentId(12))),
            enabled: false,
        }),
    ];
    assert_eq!(text(responses), text(expected));
}

#[test]
fn what_is_not_there_is_not_repositioned() {
    let mut state = selecting(&[]);
    let mut responses = VecDeque::new();
    assert_eq!(state.reposition_control_point(&anchor(9), &document(wave()), DVec2::ZERO, LAYER, &mut responses), None);
    let elsewhere = LayerNodeIdentifier(5);
    assert_eq!(state.reposition_control_point(&anchor(1), &document(wave()), DVec2::ZERO, elsewhere, &mut responses), None);
    state.update_selected_anchors_status(false);
    assert_eq!(state.reposition_control_point(&anchor(1), &document(wave()), DVec2::ZERO, LAYER, &mut responses), None);
    assert!(responses.is_empty());
}

#[test]
fn dragging_moves_selected_anchors_and_the_ends_of_selected_segments() {
    let mut state = selecting(&[anchor(1)]);
    state.selected_shape_state.entries[0].state.select_segment(SegmentId(12));
    let mut responses = VecDeque::new();
    state.move_selected_points_and_segments(None, &document(wave()), drag(DVec2::new(0., 5.)), &mut responses);
    let expected: Vec<Message> = [1, 2, 3]
        .into_iter()
        .map(|id| change(VectorModificationType::ApplyPointDelta { point: PointId(id), delta: DVec2::new(0., 5.) }))
        .collect();
    assert_eq!(text(responses), text(expected));
}

#[test]
fn dragging_a_handle_turns_the_opposite_one() {
    let state = selecting(&[ManipulatorPointId::EndHandle(SegmentId(11))]);
    let mut responses = VecDeque::new();
    // From (7, 4) to (10, 5), straight above the anchor.
    state.move_selected_points_and_segments(None, &document(wave()), drag(DVec2::new(3., 1.)), &mut responses);
    let expected = [
        change(VectorModificationType::SetEndHandle { segment: SegmentId(11), relative_position: DVec2::new(0., 5.) }),
        change(VectorModificationType::SetPrimaryHandle { segment: SegmentId(12), relative_position: DVec2::new(0., -5.) }),
    ];
    assert_eq!(text(responses), text(expected));
}

#[test]
fn an_equidistant_drag_mirrors_the_handle() {
    let state = selecting(&[ManipulatorPointId::EndHandle(SegmentId(11))]);
    let mut responses = VecDeque::new();
    let equidistant = Drag { equidistant: true, ..drag(DVec2::new(-1., 0.)) };
    state.move_selected_points_and_segments(None, &document(wave()), equidistant, &mut responses);
    let expected = [
        change(VectorModificationType::SetEndHandle { segment: SegmentId(11), relative_position: DVec2::new(-4., 4.) }),
        change(VectorModificationType::SetPrimaryHandle { segment: SegmentId(12), relative_position: DVec2::new(4., -4.) }),
    ];
    assert_eq!(text(responses), text(expected));
}

#[test]
fn a_handle_on_its_anchor_puts_the_opposite_one_back() {
    let state = selecting(&[ManipulatorPointId::EndHandle(SegmentId(11))]);
    let mut responses = VecDeque::new();
    let onto = Drag { opposite_handle_position: Some(DVec2::new(12., -1.)), ..drag(DVec2::new(3., -4.)) };
    state.move_selected_points_and_segments(None, &document(wave()), onto, &mut responses);
    let expected = [
        change(VectorModificationType::SetEndHandle { segment: SegmentId(11), relative_position: DVec2::ZERO }),
        change(VectorModificationType::SetPrimaryHandle { segment: SegmentId(12), relative_position: DVec2::new(2., -1.) }),
    ];
    assert_eq!(text(responses), text(expected));
}

#[test]
fn dragging_both_handles_breaks_their_line() {
    let state = selecting(&[ManipulatorPointId::EndHandle(SegmentId(11)), ManipulatorPointId::PrimaryHandle(SegmentId(12))]);
    let mut responses = VecDeque::new();
    state.move_selected_points_and_segments(None, &document(wave()), drag(DVec2::X), &mut responses);
    let broken = responses
        .iter()
        .filter(|message| matches!(message, Message::Vector { modification_type: VectorModificationType::SetG1Continuous { enabled: false, .. }, .. }))
        .count();
    assert_eq!(broken, 2);
    assert_eq!(responses.len(), 4);
}

#[test]
fn skipped_opposite_handles_stay() {
    let state = selecting(&[ManipulatorPointId::EndHandle(SegmentId(11))]);
    let mut responses = VecDeque::new();
    let skipping = Drag { skip_opposite_handle: true, ..drag(DVec2::X) };
    state.move_selected_points_and_segments(None, &document(wave()), skipping, &mut responses);
    assert_eq!(responses.len(), 1);
    let state = selecting(&[ManipulatorPointId::EndHandle(SegmentId(11))]);
    let mut responses = VecDeque::new();
    let with_alt = Drag { was_alt_dragging: true, ..drag(DVec2::X) };
    state.move_selected_points_and_segments(None, &document(wave()), with_alt, &mut responses);
    assert_eq!(responses.len(), 1);
}

#[test]
fn the_length_facing_the_selected_handle_is_kept() {
    let state = selecting(&[ManipulatorPointId::EndHandle(SegmentId(11))]);
    let lengths = state.opposing_handle_lengths(&document(wave()));
    let other = HandleId::primary(SegmentId(12));
    assert_eq!(lengths.get(LAYER, other), Some(DVec2::splat(5.)));
    assert_eq!(lengths.get(LAYER, other.opposite()), None);
    let mut responses = VecDeque::new();
    let mut shorter = wave();
    shorter.segments[1].handles = cubic((10., -1.), (17., -3.));
    state.move_selected_points_and_segments(Some(&lengths), &document(shorter), drag(DVec2::new(3., 1.)), &mut responses);
    let last = change(VectorModificationType::SetPrimaryHandle { segment: SegmentId(12), relative_position: DVec2::new(0., -5.) });
    assert_eq!(format!("{:?}", responses[1]), format!("{last:?}"));
    let with_anchor = selecting(&[ManipulatorPointId::EndHandle(SegmentId(11)), anchor(2)]);
    assert_eq!(with_anchor.opposing_handle_lengths(&document(wave())).get(LAYER, other), None);
}

#[test]
fn one_selected_handle_sets_the_line() {
    let mut data = wave();
    data.colinear_manipulators.clear();
    data.segments[0].handles = cubic((3., 3.), (10., 2.));
    data.segments[1].handles = cubic((13., 0.), (17., -3.));
    let state = selecting(&[ManipulatorPointId::EndHandle(SegmentId(11))]);
    let mut responses = VecDeque::new();
    state.convert_selected_manipulators_to_colinear_handles(&mut responses, &document(data));
    let handles = (HandleId::end(SegmentId(11)), HandleId::primary(SegmentId(12)));
    let expected = [
        change(VectorModificationType::SetPrimaryHandle { segment: SegmentId(12), relative_position: DVec2::new(0., -3.) }),
        change(VectorModificationType::SetG1Continuous { handles, enabled: true }),
    ];
    assert_eq!(text(responses), text(expected));
}

#[test]
fn an_anchor_averages_its_handles() {
    let mut data = wave();
    data.colinear_manipulators.clear();
    data.segments[0].handles = cubic((3., 3.), (10., 4.));
    data.segments[1].handles = cubic((14., 4.), (17., -3.));
    let state = selecting(&[anchor(2), anchor(2)]);
    let mut responses = VecDeque::new();
    state.convert_selected_manipulators_to_colinear_handles(&mut responses, &document(data));
    // The handles at (4, 4) and (0, 4) from the anchor end up along the first axis.
    let handles = (HandleId::primary(SegmentId(12)), HandleId::end(SegmentId(11)));
    assert_eq!(responses.len(), 3);
    let first = change(VectorModificationType::SetPrimaryHandle {
        segment: SegmentId(12),
        relative_position: DVec2::new(DVec2::splat(4.).length(), 0.),
    });
    let last = change(VectorModificationType::SetG1Continuous { handles, enabled: true });
    assert_eq!(format!("{:?}", responses[0]), format!("{first:?}"));
    assert_eq!(format!("{:?}", responses[2]), format!("{last:?}"));
}

#[test]
fn a_lone_handle_is_mirrored() {
    let mut data = wave();
    data.segments[0].handles = cubic((3., 3.), (10., 4.));
    data.segments[1].handles = cubic((10., 0.), (17., -3.));
    let state = ShapeState::new();
    let mut responses = VecDeque::new();
    state.convert_manipulator_handles_by_direction(&data, PointId(2), DVec2::X, DVec2::splat(0.5), &mut responses, LAYER);
    let handles = (HandleId::primary(SegmentId(12)), HandleId::end(SegmentId(11)));
    let expected = [
        change(VectorModificationType::SetG1Continuous { handles, enabled: true }),
        change(VectorModificationType::SetPrimaryHandle { segment: SegmentId(12), relative_position: DVec2::new(-0., -4.) }),
    ];
    assert_eq!(text(responses), text(expected));
}

#[test]
fn handles_are_pulled_out_of_a_corner() {
    let mut data = wave();
    data.segments[0].handles = BezierHandles::Linear;
    data.segments[1].handles = BezierHandles::Linear;
    let state = ShapeState::new();
    let mut responses = VecDeque::new();
    state.convert_manipulator_handles_by_direction(&data, PointId(2), DVec2::NEG_X, DVec2::splat(0.5), &mut responses, LAYER);
    // Each handle and the one that its segment lacks at the other end.
    assert_eq!(responses.len(), 5);
    let lengths: Vec<DVec2> = responses
        .iter()
        .filter_map(|message| match message {
            Message::Vector { modification_type: VectorModificationType::SetPrimaryHandle { segment: SegmentId(12), relative_position }, .. } => Some(*relative_position),
            Message::Vector { modification_type: VectorModificationType::SetEndHandle { segment: SegmentId(11), relative_position }, .. } => Some(*relative_position),
            _ => None,
        })
        .collect();
    assert_eq!(lengths.len(), 2);
    assert_eq!(lengths[0], -lengths[1]);
    assert!(lengths[0].x > 0. && lengths[0].y == 0.);

    // With another share of the distance to the neighbor, the handles are that much shorter.
    let mut shorter = VecDeque::new();
    state.convert_manipulator_handles_by_direction(&data, PointId(2), DVec2::NEG_X, DVec2::splat(0.25), &mut shorter, LAYER);
    let found = shorter.iter().any(|message| {
        matches!(message, Message::Vector { modification_type: VectorModificationType::SetPrimaryHandle { segment: SegmentId(12), relative_position }, .. }
            if *relative_position == lengths[0] / 2.)
    });
    assert!(found);
}

#[test]
fn the_angle_of_handles_is_across_the_mean() {
    let (a, b) = (DVec2::splat(1.), DVec2::splat(2.));
    assert_eq!(handle_angle(Some(a), Some(b)), DVec2::splat(1.5 + std::f64::consts::FRAC_PI_2));
    assert_eq!(handle_angle(None, Some(b)), b);
    assert_eq!(handle_angle(Some(a), None), a);
    assert_eq!(handle_angle(None, None), DVec2::ZERO);
    assert!(handle_direction(Some(a), Some(b)).abs_diff_eq(DVec2::from_angle(1.5).perp(), 1e-9));
    assert!(handle_direction(None, Some(b)).abs_diff_eq(DVec2::from_angle(2.), 1e-9));
}

#[test]
fn the_angles_of_segments_give_the_direction() {
    let mut data = wave();
    data.segments[0].handles = BezierHandles::Linear;
    data.segments[1].handles = BezierHandles::Linear;
    let state = ShapeState::new();
    let half_turn = DVec2::splat(std::f64::consts::PI);
    let mut by_angles = VecDeque::new();
    state.convert_manipulator_handles_to_colinear(&data, PointId(2), (None, Some(half_turn)), DVec2::splat(0.5), &mut by_angles, LAYER);
    let mut by_direction = VecDeque::new();
    let direction = handle_direction(None, Some(half_turn));
    state.convert_manipulator_handles_by_direction(&data, PointId(2), direction, DVec2::splat(0.5), &mut by_direction, LAYER);
    assert_eq!(by_angles.len(), 5);
    assert_eq!(text(by_angles), text(by_direction));
}

#[test]
fn flipping_a_smooth_point_makes_it_sharp() {
    let state = selecting(&[anchor(2)]);
    let mut responses = VecDeque::new();
    let flipped = state.flip_smooth_sharp(&document(wave()), DVec2::new(10.5, 0.), DVec2::splat(5.), &vec![], &mut responses);
    assert!(flipped);
    let zeroed = responses
        .iter()
        .filter(|message| match message {
            Message::Vector { modification_type: VectorModificationType::SetPrimaryHandle { relative_position, .. }, .. } => *relative_position == DVec2::ZERO,
            Message::Vector { modification_type: VectorModificationType::SetEndHandle { relative_position, .. }, .. } => *relative_position == DVec2::ZERO,
            _ => false,
        })
        .count();
    assert_eq!(zeroed, 2);
}

#[test]
fn flipping_a_sharp_point_makes_it_smooth() {
    let mut data = wave();
    data.colinear_manipulators.clear();
    data.segments[0].handles = BezierHandles::Linear;
    data.segments[1].handles = BezierHandles::Linear;
    let state = selecting(&[anchor(2)]);
    let mut responses = VecDeque::new();
    let angles = vec![HandleAngles { layer: LAYER, point: PointId(2), first: Some(DVec2::splat(0.7)), second: None }];
    let document = document(data);
    assert!(state.flip_smooth_sharp(&document, DVec2::new(10., 1.), DVec2::splat(5.), &angles, &mut responses));
    let directions = vec![HandleDirection { layer: LAYER, point: PointId(2), direction: handle_direction(Some(DVec2::splat(0.7)), None) }];
    let mut same = VecDeque::new();
    assert!(state.flip_smooth_sharp_by_directions(&document, DVec2::new(10., 1.), DVec2::splat(5.), &directions, &mut same));
    assert_eq!(format!("{responses:?}"), format!("{same:?}"));
    let joined = responses
        .iter()
        .any(|message| matches!(message, Message::Vector { modification_type: VectorModificationType::SetG1Continuous { enabled: true, .. }, .. }));
    assert!(joined);
}

#[test]
fn nothing_flips_far_from_an_anchor() {
    let state = selecting(&[anchor(2)]);
    let mut responses = VecDeque::new();
    assert!(!state.flip_smooth_sharp(&document(wave()), DVec2::new(10., 50.), DVec2::splat(5.), &vec![], &mut responses));
    assert!(responses.is_empty());
}

#[test]
fn tells_whether_handles_are_in_line() {
    assert_eq!(selecting(&[anchor(2)]).selected_manipulator_angles(&document(wave())), ManipulatorAngle::Colinear);
    let mut free = wave();
    free.colinear_manipulators.clear();
    assert_eq!(selecting(&[anchor(2)]).selected_manipulator_angles(&document(free)), ManipulatorAngle::Free);
    assert_eq!(selecting(&[]).selected_manipulator_angles(&document(wave())), ManipulatorAngle::Mixed);
    // The ends of the path have no pair of handles.
    assert_eq!(selecting(&[anchor(1)]).selected_manipulator_angles(&document(wave())), ManipulatorAngle::Mixed);
    assert_eq!(ManipulatorAngle::default(), ManipulatorAngle::Colinear);
}

#[test]
fn tells_what_is_dragged() {
    let document = document(wave());
    assert_eq!(selecting(&[anchor(1)]).get_dragging_state(&document), PointSelectState::Anchor);
    let handle = ManipulatorPointId::EndHandle(SegmentId(11));
    assert_eq!(selecting(&[handle]).get_dragging_state(&document), PointSelectState::HandleWithPair);
    let lone = ManipulatorPointId::PrimaryHandle(SegmentId(11));
    assert_eq!(selecting(&[lone]).get_dragging_state(&document), PointSelectState::HandleNoPair);
    assert!(selecting(&[handle]).handle_with_pair_selected(&document));
    assert!(!selecting(&[lone]).handle_with_pair_selected(&document));
    assert!(selecting(&[anchor(1), handle]).handle_with_pair_selected(&document));
    assert!(!selecting(&[anchor(1), anchor(2), lone]).handle_with_pair_selected(&document));
}

#[test]
fn alternates_to_the_other_handle() {
    let mut state = selecting(&[ManipulatorPointId::EndHandle(SegmentId(11))]);
    state.alternate_selected_handles(&document(wave()));
    assert_eq!(state.selected_points(), vec![ManipulatorPointId::PrimaryHandle(SegmentId(12))]);
}

#[test]
fn selects_the_companions_of_a_handle() {
    let mut state = selecting(&[ManipulatorPointId::EndHandle(SegmentId(11))]);
    state.select_handles_and_anchor_connected_to_current_handle(&document(wave()));
    let selected = state.selected_points();
    assert!(selected.contains(&anchor(2)));
    assert!(selected.contains(&ManipulatorPointId::PrimaryHandle(SegmentId(12))));
    assert!(selected.contains(&ManipulatorPointId::EndHandle(SegmentId(11))));
}
