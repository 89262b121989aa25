//! Making handles smooth, sharp or colinear.
use glam::DVec2;
use std::collections::VecDeque;
use vstd::prelude::*;

use crate::deletion::{message, push, unlink_handle};
use crate::document::{Document, DocumentView, ShapeLayer, VectorLayer};
use crate::geometry::{
    absolute, absolute_of, close, difference, directions_of, divide, dot, dot_product, from_angle, half_turn, is_at_most,
    is_close, is_less, length, length_of, less, minus, negate, negation, normalize_or_zero, pi, plus, product, quotient,
    reciprocal, reciprocal_of, splat, splat_of, squared_distance, squared_distance_of, sum, times, transform_point,
    transform_vector, transformed_point, transformed_vector, try_normalize, unit, unit_or_zero, vector, vector_of, zero,
};
use crate::ids::{HandleId, LayerNodeIdentifier, ManipulatorPointId, PointId};
use crate::messages::{g1_message, handle_message, Message, VectorModificationType};
use crate::movement::{HandleLength, LayerHandleLengths, LayerLengths, OpposingHandleLengths};
use crate::selection::{LayerSelection, SelectedLayerState};
use crate::sequences::{
    find_first, lemma_filter_map_take_ends, lemma_filter_map_take_step, lemma_first_index_is, lemma_first_index_none, lemma_flat_map_take_ends,
    lemma_flat_map_take_step,
};
use crate::shape_state::{LayerEntry, ShapeSelection, ShapeState};
use crate::vector_data::{pair_holds, BezierHandles, AnchorPoint, VectorData, VectorGraph};

verus! {

/// The length of the handle that faces the only selected one of a pair whose anchor is not
/// selected.
pub open spec fn opposing_length(vector: ShapeLayer, selection: LayerSelection) -> spec_fn((HandleId, HandleId)) -> Option<HandleLength> {
    |pair: (HandleId, HandleId)|
        match vector.graph.anchor(pair.0.to_manipulator_point()) {
            None => None,
            Some(anchor) => {
                let first = selection.points.contains(pair.0.to_manipulator_point());
                let second = selection.points.contains(pair.1.to_manipulator_point());
                let other = if first {
                    pair.1
                } else {
                    pair.0
                };
                if selection.points.contains(ManipulatorPointId::Anchor(anchor)) || first == second {
                    None
                } else {
                    match (vector.graph.position(other.to_manipulator_point()), vector.graph.position_from_id(anchor)) {
                        (Some(position), Some(anchor_position)) => Some(
                            HandleLength {
                                handle: other,
                                length: length_of(
                                    transformed_vector(vector.to_document, difference(position, anchor_position)),
                                ),
                            },
                        ),
                        _ => None,
                    }
                }
            },
        }
}

/// The lengths of the handles of a layer that face a selected one.
pub open spec fn opposing_lengths(document: DocumentView) -> spec_fn(LayerEntry) -> Option<LayerLengths> {
    |entry: LayerEntry|
        match document.vector(entry.layer) {
            None => None,
            Some(vector) => Some(
                LayerLengths {
                    layer: entry.layer,
                    lengths: vector.graph.colinear.filter_map(opposing_length(vector, entry.selection)),
                },
            ),
        }
}

/// The length of the handle that faces the only selected one of a pair.
fn compute_opposing_length(vector: &VectorLayer, state: &SelectedLayerState, pair: (HandleId, HandleId)) -> (length: Option<HandleLength>)
    requires
        vector@.graph.wf(),
    ensures
        length == opposing_length(vector@, state@)(pair),
{
    let anchor: PointId = match pair.0.to_manipulator_point().get_anchor(&vector.vector_data) {
        Some(anchor) => anchor,
        None => return None,
    };
    if state.is_point_selected(ManipulatorPointId::Anchor(anchor)) {
        return None;
    }
    let first: bool = state.is_point_selected(pair.0.to_manipulator_point());
    let second: bool = state.is_point_selected(pair.1.to_manipulator_point());
    if first == second {
        return None;
    }
    let other: HandleId = if first {
        pair.1
    } else {
        pair.0
    };
    let position: DVec2 = match other.to_manipulator_point().get_position(&vector.vector_data) {
        Some(position) => position,
        None => return None,
    };
    let anchor_position: DVec2 = match vector.vector_data.position_from_id(anchor) {
        Some(position) => position,
        None => return None,
    };
    let distance: DVec2 = length(transform_vector(vector.to_document, minus(position, anchor_position)));
    Some(HandleLength { handle: other, length: distance })
}

impl ShapeState {
    /// The opposing handle lengths.
    pub fn opposing_handle_lengths(&self, document: &Document) -> (lengths: OpposingHandleLengths)
        requires
            document@.wf(),
        ensures
            lengths@ == self@.layers.filter_map(opposing_lengths(document@)),
    {
        let mut layers: Vec<LayerHandleLengths> = Vec::new();
        let ghost image = opposing_lengths(document@);
        let ghost seen = layers@.map_values(|lengths: LayerHandleLengths| lengths@);
        proof {
            lemma_filter_map_take_ends(self@.layers, image);
            assert(seen == Seq::<LayerLengths>::empty());
        }
        let mut i: usize = 0;
        while i < self.selected_shape_state.entries.len()
            invariant
                i <= self.selected_shape_state.entries.len(),
                document@.wf(),
                image == opposing_lengths(document@),
                layers@.map_values(|lengths: LayerHandleLengths| lengths@) == self@.layers.take(i as int).filter_map(image),
            decreases self.selected_shape_state.entries.len() - i,
        {
            proof {
                lemma_filter_map_take_step(self@.layers, image, i as int);
            }
            let layer: LayerNodeIdentifier = self.selected_shape_state.entries[i].layer;
            let state: &SelectedLayerState = &self.selected_shape_state.entries[i].state;
            match document.compute_modified_vector(layer) {
                Some(vector) => {
                    let pairs: &Vec<(HandleId, HandleId)> = &vector.vector_data.colinear_manipulators;
                    let mut lengths: Vec<HandleLength> = Vec::new();
                    let ghost inner = opposing_length(vector@, state@);
                    proof {
                        lemma_filter_map_take_ends(pairs@, inner);
                    }
                    let mut k: usize = 0;
                    while k < pairs.len()
                        invariant
                            k <= pairs.len(),
                            vector@.graph.wf(),
                            inner == opposing_length(vector@, state@),
                            lengths@ == pairs@.take(k as int).filter_map(inner),
                        decreases pairs.len() - k,
                    {
                        proof {
                            lemma_filter_map_take_step(pairs@, inner, k as int);
                        }
                        if let Some(length) = compute_opposing_length(vector, state, pairs[k]) {
                            lengths.push(length);
                        }
                        k += 1;
                    }
                    let ghost before = layers@.map_values(|lengths: LayerHandleLengths| lengths@);
                    let found: LayerHandleLengths = LayerHandleLengths { layer, lengths };
                    layers.push(found);
                    proof {
                        assert(layers@.map_values(|lengths: LayerHandleLengths| lengths@) == before.push(found@));
                    }
                },
                None => {},
            }
            i += 1;
        }
        OpposingHandleLengths { layers }
    }
}

impl VectorGraph {
    /// The length of a handle. It is zero for a handle without an anchor, and `None`, which is
    /// above every number, for a handle that is not there.
    pub open spec fn handle_length(self, handle: HandleId) -> Option<DVec2> {
        let anchor_position = match self.anchor(handle.to_manipulator_point()) {
            Some(anchor) => self.position_from_id(anchor),
            None => None,
        };
        match (anchor_position, self.position(handle.to_manipulator_point())) {
            (None, _) => Some(zero()),
            (Some(anchor), Some(position)) => Some(length_of(difference(position, anchor))),
            (Some(_), None) => None,
        }
    }

    /// Whether the handle is longer than the limit.
    pub open spec fn is_longer(self, handle: HandleId, limit: DVec2) -> bool {
        match self.handle_length(handle) {
            Some(length) => is_less(limit, length),
            None => true,
        }
    }

    /// The position of the anchor at the other end of the segment of a handle.
    pub open spec fn far_anchor(self, handle: HandleId, point: PointId) -> Option<DVec2> {
        match self.other_point(handle.segment, point) {
            Some(other) => self.position_from_id(other),
            None => None,
        }
    }
}

impl HandleId {
    /// The length of this handle. It is zero for a handle without an anchor, and `None`, which is
    /// above every number, for a handle that is not there.
    pub fn length(self, vector_data: &VectorData) -> (length: Option<DVec2>)
        requires
            vector_data@.wf(),
        ensures
            length == vector_data@.handle_length(self),
    {
        let anchor: PointId = match self.to_manipulator_point().get_anchor(vector_data) {
            Some(anchor) => anchor,
            None => return Some(splat(0)),
        };
        let anchor_position: DVec2 = match vector_data.position_from_id(anchor) {
            Some(position) => position,
            None => return Some(splat(0)),
        };
        match self.to_manipulator_point().get_position(vector_data) {
            Some(position) => Some(length(minus(position, anchor_position))),
            None => None,
        }
    }

    /// Whether this handle is longer than the limit.
    pub fn is_longer(self, vector_data: &VectorData, limit: DVec2) -> (result: bool)
        requires
            vector_data@.wf(),
        ensures
            result == vector_data@.is_longer(self, limit),
    {
        match self.length(vector_data) {
            Some(length) => less(limit, length),
            None => true,
        }
    }

    /// The position of the anchor at the other end of the segment of this handle.
    pub fn far_anchor(self, vector_data: &VectorData, point: PointId) -> (position: Option<DVec2>)
        requires
            vector_data@.wf(),
        ensures
            position == vector_data@.far_anchor(self, point),
    {
        match vector_data.other_point(self.segment, point) {
            Some(other) => vector_data.position_from_id(other),
            None => None,
        }
    }
}

/// A length below which a handle counts as having none.
pub open spec fn negligible() -> DVec2 {
    reciprocal_of(1_000_000)
}

/// The direction in which the handles of an anchor are pulled: the given one, or its opposite if
/// the given one leads away from the first neighbor or towards the second.
pub open spec fn pull_direction(direction: DVec2, anchor: DVec2, first: Option<DVec2>, second: Option<DVec2>) -> DVec2 {
    let faces_away = first matches Some(neighbor) && is_less(
        dot_product(unit_or_zero(difference(neighbor, anchor)), direction),
        zero(),
    );
    let faces_second = second matches Some(neighbor) && is_less(
        zero(),
        dot_product(unit_or_zero(difference(neighbor, anchor)), direction),
    );
    if faces_away || faces_second {
        product(direction, splat_of(-1 as i32))
    } else {
        direction
    }
}

/// The requests that pull a handle out of its anchor along the direction, as far as a share of what the
/// neighbor is away in that direction. The other handle of the segment comes into being if there is
/// none.
pub open spec fn pull_handle(
    layer: LayerNodeIdentifier,
    graph: VectorGraph,
    handle: HandleId,
    neighbor: Option<DVec2>,
    anchor: DVec2,
    direction: DVec2,
    length_factor: DVec2,
    sign: i32,
) -> Seq<Message> {
    match neighbor {
        None => Seq::empty(),
        Some(position) => {
            let away = difference(position, anchor);
            match unit(away) {
                None => Seq::empty(),
                Some(unit_vector) => {
                    let projection = product(
                        product(length_of(away), length_factor),
                        absolute_of(dot_product(direction, unit_vector)),
                    );
                    let new_position = product(product(direction, projection), splat_of(sign));
                    seq![handle_message(layer, handle, new_position)] + missing_opposite(layer, graph, handle)
                },
            }
        },
    }
}

/// The request that lets the other handle of a segment come into being at its anchor, if there is
/// none.
pub open spec fn missing_opposite(layer: LayerNodeIdentifier, graph: VectorGraph, handle: HandleId) -> Seq<Message> {
    if graph.position(handle.opposite().to_manipulator_point()) is None {
        seq![handle_message(layer, handle.opposite(), zero())]
    } else {
        Seq::empty()
    }
}

/// The request that mirrors the handle that is there to the one that is not.
pub open spec fn mirror_handle(layer: LayerNodeIdentifier, graph: VectorGraph, pair: (HandleId, HandleId), anchor: DVec2) -> Seq<Message> {
    let (non_zero, zero_handle) = if graph.is_longer(pair.0, negligible()) {
        (pair.0, pair.1)
    } else {
        (pair.1, pair.0)
    };
    match (graph.position(non_zero.to_manipulator_point()), graph.handle_length(non_zero)) {
        (Some(position), Some(length)) => match unit(difference(position, anchor)) {
            Some(direction) => seq![handle_message(layer, zero_handle, product(negation(direction), length))],
            None => Seq::empty(),
        },
        _ => Seq::empty(),
    }
}

/// The first handles at a point, two at most.
pub open spec fn first_handles(graph: VectorGraph, point: PointId) -> Seq<HandleId> {
    let handles = graph.all_connected(point);
    if handles.len() > 2 {
        handles.take(2)
    } else {
        handles
    }
}

/// The requests that make the handles of an anchor colinear. If one is there, the other becomes its
/// mirror image; otherwise both are pulled out along the direction.
pub open spec fn make_colinear(layer: LayerNodeIdentifier, graph: VectorGraph, point: PointId, direction: DVec2, length_factor: DVec2) -> Seq<Message> {
    match graph.position_from_id(point) {
        None => Seq::empty(),
        Some(anchor) => {
            let handles = first_handles(graph, point);
            let first = if handles.len() > 0 {
                graph.far_anchor(handles[0], point)
            } else {
                None
            };
            let second = if handles.len() > 1 {
                graph.far_anchor(handles[1], point)
            } else {
                None
            };
            let pulled = pull_direction(direction, anchor, first, second);
            let in_line = if handles.len() == 2 {
                seq![g1_message(layer, (handles[0], handles[1]), true)]
            } else {
                Seq::empty()
            };
            let one_is_there = (handles.len() > 0 && graph.is_longer(handles[0], negligible())) || (handles.len() > 1
                && graph.is_longer(handles[1], negligible()));
            in_line + if one_is_there && !graph.has_linear_segment(point) {
                if handles.len() == 2 {
                    mirror_handle(layer, graph, (handles[0], handles[1]), anchor)
                } else {
                    Seq::empty()
                }
            } else {
                (if handles.len() > 0 {
                    pull_handle(layer, graph, handles[0], first, anchor, pulled, length_factor, 1)
                } else {
                    Seq::empty()
                }) + (if handles.len() > 1 {
                    pull_handle(layer, graph, handles[1], second, anchor, pulled, length_factor, -1 as i32)
                } else {
                    Seq::empty()
                })
            }
        },
    }
}

/// Lets the other handle of a segment come into being, if there is none.
pub(crate) fn push_missing_opposite(vector_data: &VectorData, layer: LayerNodeIdentifier, handle: HandleId, responses: &mut VecDeque<Message>)
    requires
        vector_data@.wf(),
    ensures
        final(responses)@ == old(responses)@ + missing_opposite(layer, vector_data@, handle),
{
    let opposite: HandleId = handle.opposite();
    if opposite.to_manipulator_point().get_position(vector_data).is_none() {
        push(responses, layer, opposite.set_relative_position(splat(0)));
    }
}

/// Pulls a handle out of its anchor.
fn push_pull_handle(
    vector_data: &VectorData,
    layer: LayerNodeIdentifier,
    handle: HandleId,
    neighbor: Option<DVec2>,
    anchor: DVec2,
    direction: DVec2,
    length_factor: DVec2,
    sign: i32,
    responses: &mut VecDeque<Message>,
)
    requires
        vector_data@.wf(),
    ensures
        final(responses)@ == old(responses)@ + pull_handle(
            layer,
            vector_data@,
            handle,
            neighbor,
            anchor,
            direction,
            length_factor,
            sign,
        ),
{
    let away: DVec2 = match neighbor {
        Some(position) => minus(position, anchor),
        None => return,
    };
    let unit_vector: DVec2 = match try_normalize(away) {
        Some(unit_vector) => unit_vector,
        None => return,
    };
    let projection: DVec2 = times(times(length(away), length_factor), absolute(dot(direction, unit_vector)));
    let new_position: DVec2 = times(times(direction, projection), splat(sign));
    push(responses, layer, handle.set_relative_position(new_position));
    push_missing_opposite(vector_data, layer, handle, responses);
}

/// Mirrors the handle that is there to the one that is not.
fn push_mirror_handle(vector_data: &VectorData, layer: LayerNodeIdentifier, pair: (HandleId, HandleId), anchor: DVec2, responses: &mut VecDeque<Message>)
    requires
        vector_data@.wf(),
    ensures
        final(responses)@ == old(responses)@ + mirror_handle(layer, vector_data@, pair, anchor),
{
    let (non_zero, zero_handle): (HandleId, HandleId) = if pair.0.is_longer(vector_data, reciprocal(1_000_000)) {
        (pair.0, pair.1)
    } else {
        (pair.1, pair.0)
    };
    if let Some(position) = non_zero.to_manipulator_point().get_position(vector_data) {
        if let Some(length) = non_zero.length(vector_data) {
            if let Some(direction) = try_normalize(minus(position, anchor)) {
                push(responses, layer, zero_handle.set_relative_position(times(negate(direction), length)));
            }
        }
    }
}

/// The direction in which the handles of an anchor are pulled.
fn compute_pull_direction(direction: DVec2, anchor: DVec2, first: Option<DVec2>, second: Option<DVec2>) -> (result: DVec2)
    ensures
        result == pull_direction(direction, anchor, first, second),
{
    let faces_away: bool = match first {
        Some(neighbor) => less(dot(normalize_or_zero(minus(neighbor, anchor)), direction), splat(0)),
        None => false,
    };
    let faces_second: bool = match second {
        Some(neighbor) => less(splat(0), dot(normalize_or_zero(minus(neighbor, anchor)), direction)),
        None => false,
    };
    if faces_away || faces_second {
        times(direction, splat(-1))
    } else {
        direction
    }
}

impl ShapeState {
    /// Makes the handles of an anchor colinear, given the direction that the angles of the segments there give to
    /// them.
    pub fn convert_manipulator_handles_by_direction(
        &self,
        vector_data: &VectorData,
        point_id: PointId,
        handle_direction: DVec2,
        length_factor: DVec2,
        responses: &mut VecDeque<Message>,
        layer: LayerNodeIdentifier,
    )
        requires
            vector_data@.wf(),
        ensures
            final(responses)@ == old(responses)@ + make_colinear(
                layer,
                vector_data@,
                point_id,
                handle_direction,
                length_factor,
            ),
    {
        let anchor: DVec2 = match vector_data.position_from_id(point_id) {
            Some(position) => position,
            None => return,
        };
        let ghost used = first_handles(vector_data@, point_id);
        let handles: Vec<HandleId> = vector_data.all_connected(point_id);
        let limit: DVec2 = reciprocal(1_000_000);
        if handles.len() == 0 {
            return;
        }
        let first: Option<DVec2> = handles[0].far_anchor(vector_data, point_id);
        let linear: bool = vector_data.has_linear_segment(point_id);
        if handles.len() == 1 {
            let direction: DVec2 = compute_pull_direction(handle_direction, anchor, first, None);
            if !handles[0].is_longer(vector_data, limit) || linear {
                push_pull_handle(vector_data, layer, handles[0], first, anchor, direction, length_factor, 1, responses);
            }
            return;
        }
        let pair: (HandleId, HandleId) = (handles[0], handles[1]);
        proof {
            assert(used.len() == 2 && used[0] == pair.0 && used[1] == pair.1);
        }
        let second: Option<DVec2> = pair.1.far_anchor(vector_data, point_id);
        push(responses, layer, VectorModificationType::SetG1Continuous { handles: pair, enabled: true });
        let direction: DVec2 = compute_pull_direction(handle_direction, anchor, first, second);
        let one_is_there: bool = pair.0.is_longer(vector_data, limit) || pair.1.is_longer(vector_data, limit);
        if one_is_there && !linear {
            push_mirror_handle(vector_data, layer, pair, anchor, responses);
        } else {
            push_pull_handle(vector_data, layer, pair.0, first, anchor, direction, length_factor, 1, responses);
            push_pull_handle(vector_data, layer, pair.1, second, anchor, direction, length_factor, -1, responses);
        }
    }
}

/// The angle of the handles at an anchor, for the angles of the segments there, as far as they have one:
/// at right angles to their mean if there are two, and otherwise the only one, or zero.
pub open spec fn handle_angle_of(first: Option<DVec2>, second: Option<DVec2>) -> DVec2 {
    match (first, second) {
        (Some(a), Some(b)) => sum(quotient(sum(sum(zero(), a), b), splat_of(2)), quotient(pi(), splat_of(2))),
        (Some(a), None) => sum(zero(), a),
        (None, Some(b)) => sum(zero(), b),
        (None, None) => zero(),
    }
}

/// The angle of the handles at an anchor, for the angles of the segments there.
pub fn handle_angle(first: Option<DVec2>, second: Option<DVec2>) -> (angle: DVec2)
    ensures
        angle == handle_angle_of(first, second),
{
    match (first, second) {
        (Some(a), Some(b)) => plus(divide(plus(plus(splat(0), a), b), splat(2)), divide(half_turn(), splat(2))),
        (Some(a), None) => plus(splat(0), a),
        (None, Some(b)) => plus(splat(0), b),
        (None, None) => splat(0),
    }
}

/// The direction of the handles at an anchor, for the angles of the segments there.
pub fn handle_direction(first: Option<DVec2>, second: Option<DVec2>) -> (direction: DVec2)
    ensures
        directions_of(handle_angle_of(first, second)).contains(direction),
{
    from_angle(handle_angle(first, second))
}

impl ShapeState {
    /// Makes the handles of an anchor colinear, given the angles of the first two segments there, as far as they have
    /// one.
    ///
    /// The cosine and the sine of their angle are computed here; what follows from them is what
    /// [`ShapeState::convert_manipulator_handles_by_direction`] does.
    pub fn convert_manipulator_handles_to_colinear(
        &self,
        vector_data: &VectorData,
        point_id: PointId,
        angles: (Option<DVec2>, Option<DVec2>),
        length_factor: DVec2,
        responses: &mut VecDeque<Message>,
        layer: LayerNodeIdentifier,
    )
        requires
            vector_data@.wf(),
        ensures
            exists|direction: DVec2|
                {
                    &&& #[trigger] directions_of(handle_angle_of(angles.0, angles.1)).contains(direction)
                    &&& final(responses)@ == old(responses)@ + make_colinear(layer, vector_data@, point_id, direction, length_factor)
                },
    {
        let direction: DVec2 = handle_direction(angles.0, angles.1);
        self.convert_manipulator_handles_by_direction(vector_data, point_id, direction, length_factor, responses, layer);
    }
}

/// The angles of the first two segments at an anchor, as far as they have one.
#[derive(Clone, Copy, Debug)]
pub struct HandleAngles {
    pub layer: LayerNodeIdentifier,
    pub point: PointId,
    pub first: Option<DVec2>,
    pub second: Option<DVec2>,
}

/// The direction that the angles of the segments at an anchor give to its handles.
#[derive(Clone, Copy, Debug)]
pub struct HandleDirection {
    pub layer: LayerNodeIdentifier,
    pub point: PointId,
    pub direction: DVec2,
}

pub open spec fn direction_at(layer: LayerNodeIdentifier, point: PointId) -> spec_fn(HandleDirection) -> bool {
    |entry: HandleDirection| entry.layer == layer && entry.point == point
}

/// The direction for an anchor: that of the first axis where none is given.
pub open spec fn direction_for(directions: Seq<HandleDirection>, layer: LayerNodeIdentifier, point: PointId) -> DVec2 {
    match find_first(directions, direction_at(layer, point)) {
        Some(entry) => entry.direction,
        None => vector_of(1, 0),
    }
}

/// The direction for an anchor.
fn lookup_direction(directions: &Vec<HandleDirection>, layer: LayerNodeIdentifier, point: PointId) -> (direction: DVec2)
    ensures
        direction == direction_for(directions@, layer, point),
{
    let ghost pred = direction_at(layer, point);
    let mut i: usize = 0;
    while i < directions.len()
        invariant
            i <= directions.len(),
            pred == direction_at(layer, point),
            forall|j: int| 0 <= j < i ==> !pred(#[trigger] directions@[j]),
        decreases directions.len() - i,
    {
        if directions[i].layer == layer && directions[i].point == point {
            proof {
                lemma_first_index_is(directions@, pred, i as int);
            }
            return directions[i].direction;
        }
        i += 1;
    }
    proof {
        lemma_first_index_none(directions@, pred);
    }
    vector(1, 0)
}

/// Whether a direction is the one that the angles of the segments at an anchor give to its handles.
pub open spec fn is_direction_of(angles: HandleAngles, direction: HandleDirection) -> bool {
    &&& direction.layer == angles.layer
    &&& direction.point == angles.point
    &&& directions_of(handle_angle_of(angles.first, angles.second)).contains(direction.direction)
}

/// Whether directions are those that the angles of the segments give to the handles at their anchors.
pub open spec fn are_directions_of(angles: Seq<HandleAngles>, directions: Seq<HandleDirection>) -> bool {
    &&& directions.len() == angles.len()
    &&& forall|i: int| 0 <= i < angles.len() ==> is_direction_of(angles[i], #[trigger] directions[i])
}

/// The directions that the angles of the segments give to the handles at their anchors.
fn turn_angles(angles: &Vec<HandleAngles>) -> (directions: Vec<HandleDirection>)
    ensures
        are_directions_of(angles@, directions@),
{
    let mut directions: Vec<HandleDirection> = Vec::new();
    let mut i: usize = 0;
    while i < angles.len()
        invariant
            i <= angles.len(),
            directions@.len() == i,
            forall|k: int| 0 <= k < i ==> is_direction_of(angles@[k], #[trigger] directions@[k]),
        decreases angles.len() - i,
    {
        let own: HandleAngles = angles[i];
        let direction: DVec2 = handle_direction(own.first, own.second);
        directions.push(HandleDirection { layer: own.layer, point: own.point, direction });
        i += 1;
    }
    directions
}

/// The squared distance of a point of the shape from a target in the viewport.
pub open spec fn point_distance(vector: ShapeLayer, target: DVec2, i: int) -> DVec2 {
    squared_distance_of(transformed_point(vector.to_viewport, vector.graph.points[i].position), target)
}

/// The first of the nearest among the first `n` points, if one is nearer than the limit.
pub open spec fn nearest_anchor(vector: ShapeLayer, target: DVec2, limit: DVec2, n: nat) -> Option<int>
    decreases n,
{
    if n == 0 {
        None
    } else {
        let i = n - 1;
        let before = nearest_anchor(vector, target, limit, i as nat);
        let bound = match before {
            Some(k) => point_distance(vector, target, k),
            None => limit,
        };
        if is_less(point_distance(vector, target, i), bound) {
            Some(i)
        } else {
            before
        }
    }
}

/// The anchor that [`nearest_anchor`] finds is nearer than the limit, no anchor is nearer, and none
/// before it is as near. If it finds none, no anchor is nearer than the limit.
pub proof fn nearest_anchor_is_nearest(vector: ShapeLayer, target: DVec2, limit: DVec2, n: nat)
    ensures
        match nearest_anchor(vector, target, limit, n) {
            Some(k) => {
                &&& 0 <= k < n
                &&& is_less(point_distance(vector, target, k), limit)
                &&& forall|j: int| 0 <= j < n ==> !is_less(#[trigger] point_distance(vector, target, j), point_distance(vector, target, k))
                &&& forall|j: int| 0 <= j < k ==> !is_at_most(#[trigger] point_distance(vector, target, j), point_distance(vector, target, k))
            },
            None => forall|j: int| 0 <= j < n ==> !is_less(#[trigger] point_distance(vector, target, j), limit),
        },
    decreases n,
{
    if n > 0 {
        nearest_anchor_is_nearest(vector, target, limit, (n - 1) as nat);
    }
}

/// Whether a handle is on top of the anchor.
pub open spec fn is_collapsed(graph: VectorGraph, handle: HandleId, anchor: DVec2) -> bool {
    graph.position(handle.to_manipulator_point()) matches Some(position) && is_close(anchor, position, reciprocal_of(100_000))
}

/// Whether the anchor counts as sharp: a handle is on top of it, or a segment at it is straight.
pub open spec fn is_sharp(graph: VectorGraph, point: AnchorPoint) -> bool {
    ||| exists|i: int|
        0 <= i < graph.all_connected(point.id).len() && is_collapsed(
            graph,
            #[trigger] graph.all_connected(point.id)[i],
            point.position,
        )
    ||| graph.has_linear_segment(point.id)
}

/// The requests that make a handle sharp.
pub open spec fn sharpen_handle(layer: LayerNodeIdentifier, graph: VectorGraph) -> spec_fn(HandleId) -> Seq<Message> {
    |handle: HandleId|
        match graph.segment_from_id(handle.segment) {
            None => Seq::empty(),
            Some(bezier) => match bezier.handles {
                BezierHandles::Linear => Seq::empty(),
                BezierHandles::Quadratic { .. } => seq![
                    message(
                        layer,
                        VectorModificationType::SetHandles { segment: handle.segment, handles: (None, None) },
                    ),
                ] + graph.unlink(layer, pair_holds(HandleId::primary(handle.segment))),
                BezierHandles::Cubic { .. } => seq![handle_message(layer, handle, zero())] + graph.unlink(
                    layer,
                    pair_holds(handle),
                ),
            },
        }
}

/// The requests that turn a selected anchor smooth or sharp.
pub open spec fn flip_point(layer: LayerNodeIdentifier, graph: VectorGraph, directions: Seq<HandleDirection>, length_factor: DVec2, smooth: bool) -> spec_fn(ManipulatorPointId) -> Seq<Message> {
    |point: ManipulatorPointId|
        match point.as_anchor() {
            None => Seq::empty(),
            Some(anchor) => if smooth {
                make_colinear(layer, graph, anchor, direction_for(directions, layer, anchor), length_factor)
            } else {
                graph.all_connected(anchor).flat_map(sharpen_handle(layer, graph))
            },
        }
}

/// The requests that turn the selected anchors smooth or sharp, as the anchor of the layer at the
/// target is not; `None` if there is no anchor at the target.
pub open spec fn flip_in_layer(
    document: DocumentView,
    points: Seq<ManipulatorPointId>,
    directions: Seq<HandleDirection>,
    target: DVec2,
    limit: DVec2,
    layer: LayerNodeIdentifier,
) -> Option<Seq<Message>> {
    match document.vector(layer) {
        None => None,
        Some(vector) => match nearest_anchor(vector, target, limit, vector.graph.points.len()) {
            None => None,
            Some(i) => Some(
                points.flat_map(
                    flip_point(
                        layer,
                        vector.graph,
                        directions,
                        document.handle_length_factor,
                        is_sharp(vector.graph, vector.graph.points[i]),
                    ),
                ),
            ),
        },
    }
}

/// Whether the layer has an anchor at the target.
pub open spec fn has_anchor_at(document: DocumentView, target: DVec2, limit: DVec2) -> spec_fn(LayerEntry) -> bool {
    |entry: LayerEntry|
        match document.vector(entry.layer) {
            None => false,
            Some(vector) => nearest_anchor(vector, target, limit, vector.graph.points.len()) is Some,
        }
}

/// The requests of the first layer that has an anchor at the target.
pub open spec fn flip(state: ShapeSelection, document: DocumentView, directions: Seq<HandleDirection>, target: DVec2, limit: DVec2) -> Option<Seq<Message>> {
    match find_first(state.layers, has_anchor_at(document, target, limit)) {
        None => None,
        Some(entry) => flip_in_layer(document, state.points(), directions, target, limit, entry.layer),
    }
}

/// The first of the nearest points, if one is nearer than the limit.
fn find_nearest_anchor(vector: &VectorLayer, target: DVec2, limit: DVec2) -> (nearest: Option<usize>)
    ensures
        match nearest {
            Some(i) => nearest_anchor(vector@, target, limit, vector@.graph.points.len()) == Some(i as int) && i
                < vector@.graph.points.len(),
            None => nearest_anchor(vector@, target, limit, vector@.graph.points.len()) is None,
        },
{
    let mut nearest: Option<usize> = None;
    let mut bound: DVec2 = limit;
    let mut i: usize = 0;
    while i < vector.vector_data.points.len()
        invariant
            i <= vector.vector_data.points.len(),
            match nearest {
                Some(k) => nearest_anchor(vector@, target, limit, i as nat) == Some(k as int) && k < i && bound == point_distance(
                    vector@,
                    target,
                    k as int,
                ),
                None => nearest_anchor(vector@, target, limit, i as nat) is None && bound == limit,
            },
        decreases vector.vector_data.points.len() - i,
    {
        let distance: DVec2 = squared_distance(transform_point(vector.to_viewport, vector.vector_data.points[i].position), target);
        proof {
            assert(distance == point_distance(vector@, target, i as int));
        }
        if less(distance, bound) {
            bound = distance;
            nearest = Some(i);
        }
        i += 1;
    }
    nearest
}

/// Whether the anchor counts as sharp.
fn compute_is_sharp(vector_data: &VectorData, point: AnchorPoint) -> (result: bool)
    requires
        vector_data@.wf(),
    ensures
        result == is_sharp(vector_data@, point),
{
    let handles: Vec<HandleId> = vector_data.all_connected(point.id);
    let mut i: usize = 0;
    while i < handles.len()
        invariant
            i <= handles.len(),
            vector_data@.wf(),
            handles@ == vector_data@.all_connected(point.id),
            forall|j: int| 0 <= j < i ==> !is_collapsed(vector_data@, #[trigger] handles@[j], point.position),
        decreases handles.len() - i,
    {
        if let Some(position) = handles[i].to_manipulator_point().get_position(vector_data) {
            if close(point.position, position, reciprocal(100_000)) {
                proof {
                    assert(is_collapsed(vector_data@, vector_data@.all_connected(point.id)[i as int], point.position));
                }
                return true;
            }
        }
        i += 1;
    }
    vector_data.has_linear_segment(point.id)
}

/// Makes the handles of an anchor sharp.
fn push_sharpen(vector_data: &VectorData, layer: LayerNodeIdentifier, anchor: PointId, responses: &mut VecDeque<Message>)
    requires
        vector_data@.wf(),
    ensures
        final(responses)@ == old(responses)@ + vector_data@.all_connected(anchor).flat_map(
            sharpen_handle(layer, vector_data@),
        ),
{
    let handles: Vec<HandleId> = vector_data.all_connected(anchor);
    let ghost image = sharpen_handle(layer, vector_data@);
    proof {
        lemma_flat_map_take_ends(handles@, image);
    }
    let mut i: usize = 0;
    while i < handles.len()
        invariant
            i <= handles.len(),
            vector_data@.wf(),
            image == sharpen_handle(layer, vector_data@),
            responses@ == old(responses)@ + handles@.take(i as int).flat_map(image),
        decreases handles.len() - i,
    {
        proof {
            lemma_flat_map_take_step(handles@, image, i as int);
        }
        let ghost sent = responses@;
        let handle: HandleId = handles[i];
        if let Some(bezier) = vector_data.segment_from_id(handle.segment) {
            match bezier.handles {
                BezierHandles::Linear => {},
                BezierHandles::Quadratic { .. } => {
                    push(
                        responses,
                        layer,
                        VectorModificationType::SetHandles { segment: handle.segment, handles: (None, None) },
                    );
                    unlink_handle(vector_data, layer, HandleId::primary(handle.segment), responses);
                    proof {
                        assert(responses@ == sent + image(handle));
                    }
                },
                BezierHandles::Cubic { .. } => {
                    push(responses, layer, handle.set_relative_position(splat(0)));
                    unlink_handle(vector_data, layer, handle, responses);
                    proof {
                        assert(responses@ == sent + image(handle));
                    }
                },
            }
        }
        i += 1;
    }
}

impl ShapeState {
    /// Converts the handles of a nearby clicked anchor point, as [`ShapeState::flip_smooth_sharp`] does, given the
    /// directions that the angles of the segments give to handles.
    pub fn flip_smooth_sharp_by_directions(
        &self,
        document: &Document,
        target: DVec2,
        tolerance: DVec2,
        directions: &Vec<HandleDirection>,
        responses: &mut VecDeque<Message>,
    ) -> (flipped: bool)
        requires
            document@.wf(),
        ensures
            match flip(self@, document@, directions@, target, product(tolerance, tolerance)) {
                Some(requests) => flipped && final(responses)@ == old(responses)@ + requests,
                None => !flipped && final(responses)@ == old(responses)@,
            },
    {
        let limit: DVec2 = times(tolerance, tolerance);
        let ghost pred = has_anchor_at(document@, target, limit);
        let mut i: usize = 0;
        while i < self.selected_shape_state.entries.len()
            invariant
                i <= self.selected_shape_state.entries.len(),
                document@.wf(),
                limit == product(tolerance, tolerance),
                pred == has_anchor_at(document@, target, limit),
                forall|j: int| 0 <= j < i ==> !pred(#[trigger] self@.layers[j]),
                responses@ == old(responses)@,
            decreases self.selected_shape_state.entries.len() - i,
        {
            let layer: LayerNodeIdentifier = self.selected_shape_state.entries[i].layer;
            proof {
                assert(self@.layers[i as int].layer == layer);
            }
            if let Some(vector) = document.compute_modified_vector(layer) {
                if let Some(nearest) = find_nearest_anchor(vector, target, limit) {
                    proof {
                        lemma_first_index_is(self@.layers, pred, i as int);
                    }
                    let vector_data: &VectorData = &vector.vector_data;
                    let smooth: bool = compute_is_sharp(vector_data, vector_data.points[nearest]);
                    let points: Vec<ManipulatorPointId> = self.selected_points();
                    let length_factor: DVec2 = document.handle_length_factor;
                    let ghost image = flip_point(layer, vector_data@, directions@, length_factor, smooth);
                    proof {
                        lemma_flat_map_take_ends(points@, image);
                    }
                    let mut k: usize = 0;
                    while k < points.len()
                        invariant
                            k <= points.len(),
                            vector_data@.wf(),
                            image == flip_point(layer, vector_data@, directions@, length_factor, smooth),
                            responses@ == old(responses)@ + points@.take(k as int).flat_map(image),
                        decreases points.len() - k,
                    {
                        proof {
                            lemma_flat_map_take_step(points@, image, k as int);
                        }
                        if let Some(anchor) = points[k].as_anchor() {
                            if smooth {
                                let direction: DVec2 = lookup_direction(directions, layer, anchor);
                                self.convert_manipulator_handles_by_direction(
                                    vector_data,
                                    anchor,
                                    direction,
                                    length_factor,
                                    responses,
                                    layer,
                                );
                            } else {
                                push_sharpen(vector_data, layer, anchor, responses);
                            }
                        }
                        k += 1;
                    }
                    return true;
                }
            }
            i += 1;
        }
        proof {
            lemma_first_index_none(self@.layers, pred);
        }
        false
    }

    /// Converts a nearby clicked anchor point's handles between sharp (zero-length handles) and
    /// smooth (pulled-apart handle(s)). If both handles aren't zero-length, they are set that. If
    /// both are zero-length, they are stretched apart by a reasonable amount.
    ///
    /// The `tolerance` is the distance within which an anchor counts as clicked, in both coordinates. The `angles` are
    /// those of the segments at the anchors. Their cosines and sines are computed here; what follows from them is what
    /// [`ShapeState::flip_smooth_sharp_by_directions`] does.
    pub fn flip_smooth_sharp(
        &self,
        document: &Document,
        target: DVec2,
        tolerance: DVec2,
        angles: &Vec<HandleAngles>,
        responses: &mut VecDeque<Message>,
    ) -> (flipped: bool)
        requires
            document@.wf(),
        ensures
            exists|directions: Seq<HandleDirection>|
                {
                    &&& #[trigger] are_directions_of(angles@, directions)
                    &&& match flip(self@, document@, directions, target, product(tolerance, tolerance)) {
                        Some(requests) => flipped && final(responses)@ == old(responses)@ + requests,
                        None => !flipped && final(responses)@ == old(responses)@,
                    }
                },
    {
        let directions: Vec<HandleDirection> = turn_angles(angles);
        self.flip_smooth_sharp_by_directions(document, target, tolerance, &directions, responses)
    }
}

} // verus!
