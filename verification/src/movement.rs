//! Moving anchors, handles and segments.
use glam::{DAffine2, DVec2};
use std::collections::VecDeque;
use vstd::prelude::*;

use crate::deletion::{message, push};
use crate::document::{Document, DocumentView, ShapeLayer, VectorLayer};
use crate::geometry::{
    compose, composition, difference, dot, epsilons, epsilons_of, inverse, inverse_of, is_less, length, length_of, less, minus, negate,
    negation, plus, product, squared_length, sum, times, transform_point, transform_vector, transformed_point, transformed_vector,
    try_normalize, unit,
};
use crate::id_set::{with_all, IdSet};
use crate::ids::{HandleId, LayerNodeIdentifier, ManipulatorPointId, PointId, SegmentId};
use crate::messages::{g1_message, handle_message, Message, VectorModificationType};
use crate::selection::{LayerSelection, SelectedLayerState};
use crate::sequences::{
    find_last, lemma_filter_map_take_ends, lemma_filter_map_take_step, lemma_flat_map_take_ends, lemma_flat_map_take_step,
};
use crate::shape_state::{LayerEntry, ShapeSelection, ShapeState};
use crate::topology::release;
use crate::vector_data::{BezierHandles, Segment, VectorData, VectorGraph};

verus! {

/// The request by which the handle of a quadratic segment follows the anchor at its end, unless
/// the anchor at its start is selected too.
pub open spec fn follow_anchor(layer: LayerNodeIdentifier, graph: VectorGraph, delta: DVec2, selected: Option<LayerSelection>) -> spec_fn(SegmentId) -> Option<Message> {
    |id: SegmentId|
        match graph.segment(id) {
            None => None,
            Some(segment) => match segment.handles {
                BezierHandles::Quadratic { handle } => {
                    let start = graph.points[segment.start as int];
                    if selected matches Some(selection) && selection.points.contains(ManipulatorPointId::Anchor(start.id)) {
                        None
                    } else {
                        Some(
                            message(
                                layer,
                                VectorModificationType::SetPrimaryHandle {
                                    segment: id,
                                    relative_position: sum(difference(handle, start.position), delta),
                                },
                            ),
                        )
                    }
                },
                _ => None,
            },
        }
}

/// The requests that move an anchor.
pub open spec fn anchor_move(layer: LayerNodeIdentifier, graph: VectorGraph, point: PointId, delta: DVec2, selected: Option<LayerSelection>) -> Seq<Message> {
    seq![message(layer, VectorModificationType::ApplyPointDelta { point, delta })] + graph.end_connected(point).filter_map(
        follow_anchor(layer, graph, delta, selected),
    )
}

/// What a selection of a layer is, as mathematical values, if there is one.
pub open spec fn selection_view(selected: Option<&SelectedLayerState>) -> Option<LayerSelection> {
    match selected {
        Some(state) => Some(state@),
        None => None,
    }
}

/// The requests that place a control point, or `None` if it cannot be placed.
pub open spec fn reposition(state: ShapeSelection, document: DocumentView, point: ManipulatorPointId, new_position: DVec2, layer: LayerNodeIdentifier) -> Option<Seq<Message>> {
    if state.is_point_ignored(point) {
        None
    } else {
        match document.vector(layer) {
            None => None,
            Some(vector) => match vector.graph.position(point) {
                None => None,
                Some(current) => {
                    let position = transformed_point(inverse_of(vector.to_document), new_position);
                    Some(control_point_move(layer, vector.graph, point, difference(position, current)))
                },
            },
        }
    }
}

/// The requests that move an anchor, or that move a handle and stop keeping it in line.
pub open spec fn control_point_move(layer: LayerNodeIdentifier, graph: VectorGraph, point: ManipulatorPointId, delta: DVec2) -> Seq<Message> {
    match point {
        ManipulatorPointId::Anchor(id) => anchor_move(layer, graph, id, delta, None),
        ManipulatorPointId::PrimaryHandle(segment) => seq![
            message(layer, VectorModificationType::ApplyPrimaryDelta { segment, delta }),
        ] + released(layer, graph, HandleId::primary(segment)),
        ManipulatorPointId::EndHandle(segment) => seq![
            message(layer, VectorModificationType::ApplyEndDelta { segment, delta }),
        ] + released(layer, graph, HandleId::end(segment)),
    }
}

/// The request to stop keeping the handle in line, if it is kept so.
pub open spec fn released(layer: LayerNodeIdentifier, graph: VectorGraph, handle: HandleId) -> Seq<Message> {
    match release(layer, graph)(handle) {
        Some(request) => seq![request],
        None => Seq::empty(),
    }
}

/// Stops keeping the handle in line.
fn push_released(vector_data: &VectorData, layer: LayerNodeIdentifier, handle: HandleId, responses: &mut VecDeque<Message>)
    ensures
        final(responses)@ == old(responses)@ + released(layer, vector_data@, handle),
{
    if let Some(pair) = vector_data.colinear_pair(handle) {
        push(responses, layer, VectorModificationType::SetG1Continuous { handles: pair, enabled: false });
    }
}

impl ShapeState {
    /// Moves the handle next to the start of the segment.
    pub fn move_primary(&self, segment: SegmentId, delta: DVec2, layer: LayerNodeIdentifier, responses: &mut VecDeque<Message>)
        ensures
            final(responses)@ == old(responses)@.push(
                message(layer, VectorModificationType::ApplyPrimaryDelta { segment, delta }),
            ),
    {
        push(responses, layer, VectorModificationType::ApplyPrimaryDelta { segment, delta });
    }

    /// Moves the handle next to the end of the segment.
    pub fn move_end(&self, segment: SegmentId, delta: DVec2, layer: LayerNodeIdentifier, responses: &mut VecDeque<Message>)
        ensures
            final(responses)@ == old(responses)@.push(
                message(layer, VectorModificationType::ApplyEndDelta { segment, delta }),
            ),
    {
        push(responses, layer, VectorModificationType::ApplyEndDelta { segment, delta });
    }

    /// Moves the anchor. The handle of a quadratic segment that ends there moves with it, unless
    /// the anchor at the segment's start is selected.
    pub fn move_anchor(
        &self,
        point: PointId,
        vector_data: &VectorData,
        delta: DVec2,
        layer: LayerNodeIdentifier,
        selected: Option<&SelectedLayerState>,
        responses: &mut VecDeque<Message>,
    )
        requires
            vector_data@.wf(),
        ensures
            final(responses)@ == old(responses)@ + anchor_move(
                layer,
                vector_data@,
                point,
                delta,
                selection_view(selected),
            ),
    {
        push(responses, layer, VectorModificationType::ApplyPointDelta { point, delta });
        let ghost sent = responses@;
        let ghost image = follow_anchor(layer, vector_data@, delta, selection_view(selected));
        let segments: Vec<SegmentId> = vector_data.end_connected(point);
        proof {
            lemma_filter_map_take_ends(segments@, image);
        }
        let mut i: usize = 0;
        while i < segments.len()
            invariant
                i <= segments.len(),
                vector_data@.wf(),
                image == follow_anchor(layer, vector_data@, delta, selection_view(selected)),
                responses@ == sent + segments@.take(i as int).filter_map(image),
            decreases segments.len() - i,
        {
            proof {
                lemma_filter_map_take_step(segments@, image, i as int);
            }
            if let Some(segment) = vector_data.segment(segments[i]) {
                if let BezierHandles::Quadratic { handle } = segment.handles {
                    let start: PointId = vector_data.points[segment.start].id;
                    let start_selected: bool = match selected {
                        Some(state) => state.is_point_selected(ManipulatorPointId::Anchor(start)),
                        None => false,
                    };
                    if !start_selected {
                        let relative_position: DVec2 = plus(
                            minus(handle, vector_data.points[segment.start].position),
                            delta,
                        );
                        push(
                            responses,
                            layer,
                            VectorModificationType::SetPrimaryHandle { segment: segments[i], relative_position },
                        );
                    }
                }
            }
            i += 1;
        }
    }

    /// Moves a control point to a `new_position` in document space.
    /// Returns `Some(())` if successful and `None` otherwise.
    pub fn reposition_control_point(
        &self,
        point: &ManipulatorPointId,
        document: &Document,
        new_position: DVec2,
        layer: LayerNodeIdentifier,
        responses: &mut VecDeque<Message>,
    ) -> (result: Option<()>)
        requires
            document@.wf(),
        ensures
            result is Some <==> reposition(self@, document@, *point, new_position, layer) is Some,
            match reposition(self@, document@, *point, new_position, layer) {
                Some(requests) => final(responses)@ == old(responses)@ + requests,
                None => final(responses)@ == old(responses)@,
            },
    {
        if self.is_point_ignored(point) {
            return None;
        }
        let vector: &VectorLayer = match document.compute_modified_vector(layer) {
            Some(vector) => vector,
            None => return None,
        };
        let position: DVec2 = transform_point(inverse(vector.to_document), new_position);
        let current: DVec2 = match point.get_position(&vector.vector_data) {
            Some(current) => current,
            None => return None,
        };
        let delta: DVec2 = minus(position, current);
        match *point {
            ManipulatorPointId::Anchor(id) => {
                self.move_anchor(id, &vector.vector_data, delta, layer, None, responses);
            },
            ManipulatorPointId::PrimaryHandle(segment) => {
                self.move_primary(segment, delta, layer, responses);
                push_released(&vector.vector_data, layer, HandleId::primary(segment), responses);
            },
            ManipulatorPointId::EndHandle(segment) => {
                self.move_end(segment, delta, layer, responses);
                push_released(&vector.vector_data, layer, HandleId::end(segment), responses);
            },
        }
        Some(())
    }
}

/// The length of a handle.
#[derive(Clone, Copy, Debug)]
pub struct HandleLength {
    pub handle: HandleId,
    /// The length, in both coordinates.
    pub length: DVec2,
}

/// The lengths of handles of a layer.
#[derive(Debug)]
pub struct LayerHandleLengths {
    pub layer: LayerNodeIdentifier,
    pub lengths: Vec<HandleLength>,
}

/// For each layer the lengths of the handles that face a dragged one. Of two entries for a handle
/// the later one counts.
#[derive(Debug)]
pub struct OpposingHandleLengths {
    pub layers: Vec<LayerHandleLengths>,
}

/// The lengths of handles of a layer, as mathematical values.
pub struct LayerLengths {
    pub layer: LayerNodeIdentifier,
    pub lengths: Seq<HandleLength>,
}

impl View for LayerHandleLengths {
    type V = LayerLengths;

    open spec fn view(&self) -> LayerLengths {
        LayerLengths { layer: self.layer, lengths: self.lengths@ }
    }
}

impl View for OpposingHandleLengths {
    type V = Seq<LayerLengths>;

    open spec fn view(&self) -> Seq<LayerLengths> {
        self.layers@.map_values(|lengths: LayerHandleLengths| lengths@)
    }
}

pub open spec fn lengths_of(layer: LayerNodeIdentifier) -> spec_fn(LayerLengths) -> bool {
    |lengths: LayerLengths| lengths.layer == layer
}

pub open spec fn length_is_of(handle: HandleId) -> spec_fn(HandleLength) -> bool {
    |length: HandleLength| length.handle == handle
}

/// The recorded length of a handle.
pub open spec fn recorded_length(lengths: Option<Seq<LayerLengths>>, layer: LayerNodeIdentifier, handle: HandleId) -> Option<DVec2> {
    match lengths {
        None => None,
        Some(layers) => match find_last(layers, lengths_of(layer)) {
            None => None,
            Some(found) => match find_last(found.lengths, length_is_of(handle)) {
                None => None,
                Some(length) => Some(length.length),
            },
        },
    }
}

impl OpposingHandleLengths {
    /// The recorded length of a handle.
    pub fn get(&self, layer: LayerNodeIdentifier, handle: HandleId) -> (length: Option<DVec2>)
        ensures
            length == recorded_length(Some(self@), layer, handle),
    {
        let mut i: usize = self.layers.len();
        proof {
            assert(self@.take(i as int) == self@);
        }
        while i > 0
            invariant
                i <= self.layers.len(),
                find_last(self@, lengths_of(layer)) == find_last(self@.take(i as int), lengths_of(layer)),
            decreases i,
        {
            i -= 1;
            proof {
                assert(self@.take(i + 1).last() == self.layers[i as int]@);
                assert(self@.take(i + 1).drop_last() == self@.take(i as int));
            }
            if self.layers[i].layer == layer {
                return self.layers[i].get(handle);
            }
        }
        None
    }
}

impl LayerHandleLengths {
    /// The recorded length of a handle.
    pub fn get(&self, handle: HandleId) -> (length: Option<DVec2>)
        ensures
            length == (match find_last(self@.lengths, length_is_of(handle)) {
                None => None,
                Some(found) => Some(found.length),
            }),
    {
        let mut i: usize = self.lengths.len();
        let ghost lengths = self.lengths@;
        proof {
            assert(lengths.take(i as int) == lengths);
        }
        while i > 0
            invariant
                i <= self.lengths.len(),
                lengths == self.lengths@,
                find_last(lengths, length_is_of(handle)) == find_last(lengths.take(i as int), length_is_of(handle)),
            decreases i,
        {
            i -= 1;
            proof {
                assert(lengths.take(i + 1).last() == lengths[i as int]);
                assert(lengths.take(i + 1).drop_last() == lengths.take(i as int));
            }
            if self.lengths[i].handle == handle {
                return Some(self.lengths[i].length);
            }
        }
        None
    }
}

/// How a drag moves what is selected.
#[derive(Clone, Copy, Debug)]
pub struct Drag {
    pub delta: DVec2,
    /// The opposite handle is kept as far from the anchor as the dragged one.
    pub equidistant: bool,
    pub in_viewport_space: bool,
    pub was_alt_dragging: bool,
    /// Where the opposite handle was when the drag began.
    pub opposite_handle_position: Option<DVec2>,
    pub skip_opposite_handle: bool,
}

/// The drag as the shape of a layer sees it.
pub open spec fn layer_delta(document: DocumentView, vector: ShapeLayer, drag: Drag) -> DVec2 {
    let delta_transform = if drag.in_viewport_space {
        vector.to_viewport
    } else {
        composition(document.tilt, vector.to_document)
    };
    transformed_vector(inverse_of(delta_transform), drag.delta)
}

/// The anchors at the ends of a segment, if it is selected.
pub open spec fn selected_ends(graph: VectorGraph, segments: Seq<SegmentId>) -> spec_fn(Segment) -> Seq<ManipulatorPointId> {
    |segment: Segment|
        if segments.contains(segment.id) {
            seq![
                ManipulatorPointId::Anchor(graph.points[segment.start as int].id),
                ManipulatorPointId::Anchor(graph.points[segment.end as int].id),
            ]
        } else {
            Seq::empty()
        }
}

/// The points that a drag moves: those selected and the ends of the selected segments.
pub open spec fn affected_points(graph: VectorGraph, selection: LayerSelection) -> Seq<ManipulatorPointId> {
    with_all(selection.points, graph.segments.flat_map(selected_ends(graph, selection.segments)))
}

/// Where a handle goes, relative to its anchor, that is in line with a dragged one.
pub open spec fn opposite_move(
    document: DocumentView,
    vector: ShapeLayer,
    lengths: Option<Seq<LayerLengths>>,
    drag: Drag,
    other: HandleId,
    relative: DVec2,
    anchor_position: DVec2,
) -> Option<DVec2> {
    let transform = composition(inverse_of(document.document_to_viewport), vector.to_viewport);
    if drag.equidistant {
        Some(negation(relative))
    } else if is_less(squared_length(relative), epsilons_of(100_000)) {
        match drag.opposite_handle_position {
            Some(position) => Some(difference(position, anchor_position)),
            None => None,
        }
    } else {
        match vector.graph.position(other.to_manipulator_point()) {
            None => None,
            Some(other_position) => Some(
                match unit(transformed_vector(transform, relative)) {
                    None => difference(other_position, anchor_position),
                    Some(direction) => {
                        let length = match recorded_length(lengths, vector.layer, other) {
                            Some(length) => length,
                            None => length_of(
                                transformed_vector(transform, difference(other_position, anchor_position)),
                            ),
                        };
                        transformed_vector(inverse_of(transform), product(negation(direction), length))
                    },
                },
            ),
        }
    }
}

/// The requests that move a dragged handle, and the one in line with it.
pub open spec fn handle_move(
    document: DocumentView,
    vector: ShapeLayer,
    selection: LayerSelection,
    lengths: Option<Seq<LayerLengths>>,
    drag: Drag,
    handle: HandleId,
) -> Seq<Message> {
    let graph = vector.graph;
    let point = handle.to_manipulator_point();
    match graph.anchor(point) {
        None => Seq::empty(),
        Some(anchor) => if selection.points.contains(ManipulatorPointId::Anchor(anchor)) {
            Seq::empty()
        } else {
            match (graph.position_from_id(anchor), graph.position(point)) {
                (Some(anchor_position), Some(position)) => {
                    let relative = difference(
                        sum(position, layer_delta(document, vector, drag)),
                        anchor_position,
                    );
                    let moved = seq![handle_message(vector.layer, handle, relative)];
                    match graph.other_colinear_handle(handle) {
                        None => moved,
                        Some(other) => if drag.skip_opposite_handle {
                            moved
                        } else if selection.points.contains(other.to_manipulator_point()) {
                            moved.push(g1_message(vector.layer, (handle, other), false))
                        } else {
                            match opposite_move(document, vector, lengths, drag, other, relative, anchor_position) {
                                Some(new_relative) => if drag.was_alt_dragging {
                                    moved
                                } else {
                                    moved.push(handle_message(vector.layer, other, new_relative))
                                },
                                None => moved,
                            }
                        },
                    }
                },
                _ => Seq::empty(),
            }
        },
    }
}

/// The requests by which a drag moves a point.
pub open spec fn point_move(
    state: ShapeSelection,
    document: DocumentView,
    vector: ShapeLayer,
    selection: LayerSelection,
    lengths: Option<Seq<LayerLengths>>,
    drag: Drag,
) -> spec_fn(ManipulatorPointId) -> Seq<Message> {
    |point: ManipulatorPointId|
        if state.is_point_ignored(point) {
            Seq::empty()
        } else {
            match point {
                ManipulatorPointId::Anchor(anchor) => anchor_move(
                    vector.layer,
                    vector.graph,
                    anchor,
                    layer_delta(document, vector, drag),
                    Some(selection),
                ),
                ManipulatorPointId::PrimaryHandle(segment) => handle_move(
                    document,
                    vector,
                    selection,
                    lengths,
                    drag,
                    HandleId::primary(segment),
                ),
                ManipulatorPointId::EndHandle(segment) => handle_move(
                    document,
                    vector,
                    selection,
                    lengths,
                    drag,
                    HandleId::end(segment),
                ),
            }
        }
}

/// The requests by which a drag moves what is selected in a layer.
pub open spec fn layer_move(state: ShapeSelection, document: DocumentView, lengths: Option<Seq<LayerLengths>>, drag: Drag) -> spec_fn(LayerEntry) -> Seq<Message> {
    |entry: LayerEntry|
        match document.vector(entry.layer) {
            None => Seq::empty(),
            Some(vector) => affected_points(vector.graph, entry.selection).flat_map(
                point_move(state, document, vector, entry.selection, lengths, drag),
            ),
        }
}

/// What lengths are recorded, as mathematical values.
pub open spec fn lengths_view(lengths: Option<&OpposingHandleLengths>) -> Option<Seq<LayerLengths>> {
    match lengths {
        Some(found) => Some(found@),
        None => None,
    }
}

/// The points that a drag moves.
fn compute_affected_points(vector_data: &VectorData, state: &SelectedLayerState) -> (points: IdSet<ManipulatorPointId>)
    requires
        vector_data@.wf(),
        state@.wf(),
    ensures
        points@ == affected_points(vector_data@, state@),
{
    let ghost image = selected_ends(vector_data@, state@.segments);
    let mut ends: Vec<ManipulatorPointId> = Vec::new();
    proof {
        lemma_flat_map_take_ends(vector_data@.segments, image);
    }
    let mut i: usize = 0;
    while i < vector_data.segments.len()
        invariant
            i <= vector_data.segments.len(),
            vector_data@.wf(),
            image == selected_ends(vector_data@, state@.segments),
            ends@ == vector_data@.segments.take(i as int).flat_map(image),
        decreases vector_data.segments.len() - i,
    {
        proof {
            lemma_flat_map_take_step(vector_data@.segments, image, i as int);
            assert(vector_data@.segments[i as int].start < vector_data@.points.len());
        }
        let ghost before = ends@;
        if state.is_segment_selected(vector_data.segments[i].id) {
            ends.push(ManipulatorPointId::Anchor(vector_data.points[vector_data.segments[i].start].id));
            ends.push(ManipulatorPointId::Anchor(vector_data.points[vector_data.segments[i].end].id));
            proof {
                assert(ends@ == before + image(vector_data@.segments[i as int]));
            }
        }
        i += 1;
    }
    let mut points: IdSet<ManipulatorPointId> = state.selected_points.duplicate();
    points.insert_all(&ends);
    points
}

/// Where a handle goes that is in line with a dragged one.
fn compute_opposite_move(
    document: &Document,
    vector: &VectorLayer,
    lengths: Option<&OpposingHandleLengths>,
    drag: Drag,
    other: HandleId,
    relative: DVec2,
    anchor_position: DVec2,
) -> (new_relative: Option<DVec2>)
    requires
        vector@.graph.wf(),
    ensures
        new_relative == opposite_move(document@, vector@, lengths_view(lengths), drag, other, relative, anchor_position),
{
    if drag.equidistant {
        return Some(negate(relative));
    }
    if less(dot(relative, relative), epsilons(100_000)) {
        return match drag.opposite_handle_position {
            Some(position) => Some(minus(position, anchor_position)),
            None => None,
        };
    }
    let transform: DAffine2 = compose(inverse(document.document_to_viewport), vector.to_viewport);
    match other.to_manipulator_point().get_position(&vector.vector_data) {
        None => None,
        Some(other_position) => match try_normalize(transform_vector(transform, relative)) {
            None => Some(minus(other_position, anchor_position)),
            Some(direction) => {
                let recorded: Option<DVec2> = match lengths {
                    Some(lengths) => lengths.get(vector.layer, other),
                    None => None,
                };
                let distance: DVec2 = match recorded {
                    Some(recorded) => recorded,
                    None => length(transform_vector(transform, minus(other_position, anchor_position))),
                };
                Some(transform_vector(inverse(transform), times(negate(direction), distance)))
            },
        },
    }
}

/// Moves a dragged handle, and the one in line with it.
fn push_handle_move(
    document: &Document,
    vector: &VectorLayer,
    state: &SelectedLayerState,
    lengths: Option<&OpposingHandleLengths>,
    drag: Drag,
    delta: DVec2,
    handle: HandleId,
    responses: &mut VecDeque<Message>,
)
    requires
        vector@.graph.wf(),
        delta == layer_delta(document@, vector@, drag),
    ensures
        final(responses)@ == old(responses)@ + handle_move(document@, vector@, state@, lengths_view(lengths), drag, handle),
{
    let vector_data: &VectorData = &vector.vector_data;
    let layer: LayerNodeIdentifier = vector.layer;
    let point: ManipulatorPointId = handle.to_manipulator_point();
    let anchor: PointId = match point.get_anchor(vector_data) {
        Some(anchor) => anchor,
        None => return,
    };
    if state.is_point_selected(ManipulatorPointId::Anchor(anchor)) {
        return;
    }
    let anchor_position: DVec2 = match vector_data.position_from_id(anchor) {
        Some(position) => position,
        None => return,
    };
    let position: DVec2 = match point.get_position(vector_data) {
        Some(position) => position,
        None => return,
    };
    let relative: DVec2 = minus(plus(position, delta), anchor_position);
    push(responses, layer, handle.set_relative_position(relative));
    let other: HandleId = match vector_data.other_colinear_handle(handle) {
        Some(other) => other,
        None => return,
    };
    if drag.skip_opposite_handle {
        return;
    }
    if state.is_point_selected(other.to_manipulator_point()) {
        push(responses, layer, VectorModificationType::SetG1Continuous { handles: (handle, other), enabled: false });
        return;
    }
    let new_relative: Option<DVec2> = compute_opposite_move(document, vector, lengths, drag, other, relative, anchor_position);
    if let Some(new_relative) = new_relative {
        if !drag.was_alt_dragging {
            push(responses, layer, other.set_relative_position(new_relative));
        }
    }
}

impl ShapeState {
    /// Moves the selected points and segments by dragging the mouse.
    pub fn move_selected_points_and_segments(
        &self,
        handle_lengths: Option<&OpposingHandleLengths>,
        document: &Document,
        drag: Drag,
        responses: &mut VecDeque<Message>,
    )
        requires
            self@.wf(),
            document@.wf(),
        ensures
            final(responses)@ == old(responses)@ + self@.layers.flat_map(
                layer_move(self@, document@, lengths_view(handle_lengths), drag),
            ),
    {
        let ghost image = layer_move(self@, document@, lengths_view(handle_lengths), drag);
        proof {
            lemma_flat_map_take_ends(self@.layers, image);
        }
        let mut i: usize = 0;
        while i < self.selected_shape_state.entries.len()
            invariant
                i <= self.selected_shape_state.entries.len(),
                self@.wf(),
                document@.wf(),
                image == layer_move(self@, document@, lengths_view(handle_lengths), drag),
                responses@ == old(responses)@ + self@.layers.take(i as int).flat_map(image),
            decreases self.selected_shape_state.entries.len() - i,
        {
            proof {
                lemma_flat_map_take_step(self@.layers, image, i as int);
                assert(self@.layers[i as int].selection.wf());
            }
            let ghost sent = responses@;
            let layer: LayerNodeIdentifier = self.selected_shape_state.entries[i].layer;
            let state: &SelectedLayerState = &self.selected_shape_state.entries[i].state;
            match document.compute_modified_vector(layer) {
                Some(vector) => {
                    let delta_transform: DAffine2 = if drag.in_viewport_space {
                        vector.to_viewport
                    } else {
                        compose(document.tilt, vector.to_document)
                    };
                    let delta: DVec2 = transform_vector(inverse(delta_transform), drag.delta);
                    let points: IdSet<ManipulatorPointId> = compute_affected_points(&vector.vector_data, state);
                    let ghost inner = point_move(self@, document@, vector@, state@, lengths_view(handle_lengths), drag);
                    proof {
                        lemma_flat_map_take_ends(points@, inner);
                    }
                    let mut k: usize = 0;
                    while k < points.items.len()
                        invariant
                            k <= points.items.len(),
                            vector@.graph.wf(),
                            vector.layer == layer,
                            delta == layer_delta(document@, vector@, drag),
                            inner == point_move(self@, document@, vector@, state@, lengths_view(handle_lengths), drag),
                            responses@ == sent + points@.take(k as int).flat_map(inner),
                        decreases points.items.len() - k,
                    {
                        proof {
                            lemma_flat_map_take_step(points@, inner, k as int);
                        }
                        let point: ManipulatorPointId = points.items[k];
                        if !self.is_point_ignored(&point) {
                            match point {
                                ManipulatorPointId::Anchor(anchor) => {
                                    self.move_anchor(anchor, &vector.vector_data, delta, layer, Some(state), responses);
                                },
                                ManipulatorPointId::PrimaryHandle(segment) => {
                                    let handle: HandleId = HandleId::primary(segment);
                                    push_handle_move(document, vector, state, handle_lengths, drag, delta, handle, responses);
                                },
                                ManipulatorPointId::EndHandle(segment) => {
                                    let handle: HandleId = HandleId::end(segment);
                                    push_handle_move(document, vector, state, handle_lengths, drag, delta, handle, responses);
                                },
                            }
                        }
                        k += 1;
                    }
                },
                None => {},
            }
            i += 1;
        }
    }
}

} // verus!
