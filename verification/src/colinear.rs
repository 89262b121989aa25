//! Making the handles at the selected points colinear.
use glam::DVec2;
use std::collections::VecDeque;
use vstd::prelude::*;

use crate::angles::{angle_for, angle_keys, are_measured, compared, is_comparable, lookup_angle, measure, AngleKey, HandleAngle};
use crate::deletion::push;
use crate::document::{Document, DocumentView, ShapeLayer, VectorLayer};
use crate::geometry::{
    absolute, absolute_of, difference, divide, dot, epsilons, epsilons_of, inverse, inverse_of, is_less, length, length_of, less, minus,
    normalize_or_zero, product, quotient, reciprocal, splat, splat_of, squared_length, times, transform_vector, transformed_vector,
    try_normalize, unit, unit_or_zero, relative, relative_to,
};
use crate::handles::{missing_opposite, negligible, push_missing_opposite};
use crate::ids::{HandleId, LayerNodeIdentifier, ManipulatorPointId, PointId};
use crate::messages::{g1_message, handle_message, Message, VectorModificationType};
use crate::selection::{LayerSelection, SelectedLayerState};
use crate::sequences::{lemma_filter_take_ends, lemma_filter_take_step, lemma_flat_map_take_ends, lemma_flat_map_take_step};
use crate::shape_state::{LayerEntry, ShapeSelection, ShapeState};
use crate::vector_data::{VectorData, VectorGraph};

verus! {

/// Whether a handle is not kept in line with another.
pub open spec fn is_free(graph: VectorGraph) -> spec_fn(HandleId) -> bool {
    |handle: HandleId| graph.colinear_pair(handle) is None
}

/// The handles around a selected handle that are not kept in line with another.
pub open spec fn free_handles(graph: VectorGraph, point: ManipulatorPointId) -> Seq<HandleId> {
    match graph.connected_handles(point) {
        Some(handles) => handles.filter(is_free(graph)),
        None => Seq::empty(),
    }
}

/// How far a handle turns away from the selected one.
pub open spec fn turn(angles: Seq<HandleAngle>, key: AngleKey) -> DVec2 {
    match angle_for(angles, key) {
        Some(angle) => absolute_of(angle),
        None => splat_of(0),
    }
}

/// The first of those among the first `n` handles that turn furthest away from the selected one.
pub open spec fn most_opposite(angles: Seq<HandleAngle>, layer: LayerNodeIdentifier, point: ManipulatorPointId, handles: Seq<HandleId>, n: nat) -> HandleId
    decreases n,
{
    if n <= 1 {
        handles[0]
    } else {
        let best = most_opposite(angles, layer, point, handles, (n - 1) as nat);
        let handle = handles[n - 1];
        if is_less(turn(angles, AngleKey { layer, point, handle: best }), turn(angles, AngleKey { layer, point, handle })) {
            handle
        } else {
            best
        }
    }
}

/// The pair of handles that a selected point stands for: the two at an anchor where not more than
/// two segments meet, or a handle and the free one that is most opposite to it.
pub open spec fn pair_at(graph: VectorGraph, angles: Seq<HandleAngle>, layer: LayerNodeIdentifier, point: ManipulatorPointId) -> Option<(HandleId, HandleId)> {
    match point.as_handle() {
        None => if graph.all_connected(point->Anchor_0).len() > 2 {
            None
        } else {
            graph.handle_pair(point)
        },
        Some(current) => {
            let handles = free_handles(graph, point);
            if handles.len() == 0 {
                None
            } else {
                Some((current, most_opposite(angles, layer, point, handles, handles.len())))
            }
        },
    }
}

/// Which handles the requests for a pair move, relative to the anchor.
pub open spec fn spread(graph: VectorGraph, layer: LayerNodeIdentifier, handle: HandleId, direction: Option<DVec2>, normalized: DVec2, sign: i32) -> Seq<Message> {
    match direction {
        None => Seq::empty(),
        Some(d) => seq![
            handle_message(layer, handle, product(product(length_of(d), normalized), splat_of(sign))),
        ] + missing_opposite(layer, graph, handle),
    }
}

/// A third of the way from the anchor to its neighbor.
pub open spec fn third_of_the_way(position: Option<DVec2>, anchor: DVec2) -> Option<DVec2> {
    match position {
        Some(p) => Some(quotient(difference(p, anchor), splat_of(3))),
        None => None,
    }
}

/// The direction from the end of the second to the end of the first.
pub open spec fn axis(first: Option<DVec2>, second: Option<DVec2>) -> Option<DVec2> {
    match (first, second) {
        (Some(a), Some(b)) => unit(difference(a, b)),
        _ => None,
    }
}

/// Whether a direction is there but has practically no length.
pub open spec fn is_short(direction: Option<DVec2>) -> bool {
    direction matches Some(d) && is_less(squared_length(d), epsilons_of(100_000))
}

/// The requests that move the only handle of a pair that is not selected in line with the selected
/// one.
pub open spec fn align_unselected(vector: ShapeLayer, anchor: DVec2, selected_position: DVec2, unselected: HandleId, unselected_position: DVec2) -> Seq<Message> {
    let to_document = vector.to_document;
    let away = transformed_vector(to_document, difference(unselected_position, anchor));
    let direction = match unit(transformed_vector(to_document, difference(anchor, selected_position))) {
        Some(direction) => direction,
        None => unit_or_zero(away),
    };
    let position = transformed_vector(inverse_of(to_document), product(direction, length_of(away)));
    if is_less(negligible(), length_of(difference(anchor, selected_position))) {
        seq![handle_message(vector.layer, unselected, position)]
    } else {
        Seq::empty()
    }
}

/// The requests that turn both handles of a pair to their common axis, or `None` if there is none.
pub open spec fn align_both(vector: ShapeLayer, pair: (HandleId, HandleId), anchor_id: PointId, anchor: DVec2) -> Option<Seq<Message>> {
    let graph = vector.graph;
    let first = relative_to(graph.position(pair.0.to_manipulator_point()), anchor);
    let second = relative_to(graph.position(pair.1.to_manipulator_point()), anchor);
    let towards = if axis(first, second) is None || is_short(first) || is_short(second) {
        (
            third_of_the_way(graph.far_anchor(pair.0, anchor_id), anchor),
            third_of_the_way(graph.far_anchor(pair.1, anchor_id), anchor),
        )
    } else {
        (first, second)
    };
    match axis(towards.0, towards.1) {
        None => None,
        Some(normalized) => Some(
            spread(graph, vector.layer, pair.0, towards.0, normalized, 1) + spread(
                graph,
                vector.layer,
                pair.1,
                towards.1,
                normalized,
                -1 as i32,
            ),
        ),
    }
}

/// The requests that make a pair of handles colinear.
pub open spec fn align_pair(vector: ShapeLayer, selection: LayerSelection, point: ManipulatorPointId, pair: (HandleId, HandleId)) -> Seq<Message> {
    let graph = vector.graph;
    let positions = (graph.position(pair.0.to_manipulator_point()), graph.position(pair.1.to_manipulator_point()));
    let selected0 = selection.points.contains(pair.0.to_manipulator_point());
    let selected1 = selection.points.contains(pair.1.to_manipulator_point());
    let in_line = seq![g1_message(vector.layer, pair, true)];
    match graph.anchor(point) {
        None => Seq::empty(),
        Some(anchor_id) => match graph.position_from_id(anchor_id) {
            None => Seq::empty(),
            Some(anchor) => if selected0 != selected1 && positions.0 is Some && positions.1 is Some {
                (if selected0 {
                    align_unselected(vector, anchor, positions.0->0, pair.1, positions.1->0)
                } else {
                    align_unselected(vector, anchor, positions.1->0, pair.0, positions.0->0)
                }) + in_line
            } else {
                match align_both(vector, pair, anchor_id, anchor) {
                    None => Seq::empty(),
                    Some(requests) => requests + in_line,
                }
            },
        },
    }
}

/// A selected point, with the place of its layer.
#[derive(Clone, Copy, Debug)]
pub struct SelectedPoint {
    pub entry: usize,
    pub point: ManipulatorPointId,
}

/// The selected points of a layer, with its place.
pub open spec fn points_with_place(layers: Seq<LayerEntry>) -> spec_fn(int) -> Seq<SelectedPoint> {
    |i: int| layers[i].selection.points.map_values(|point: ManipulatorPointId| SelectedPoint { entry: i as usize, point })
}

/// All selected points, each with the place of its layer.
pub open spec fn places(n: nat) -> Seq<int> {
    Seq::new(n, |i: int| i)
}

pub open spec fn all_points(state: ShapeSelection) -> Seq<SelectedPoint> {
    places(state.layers.len()).flat_map(points_with_place(state.layers))
}

/// A pair of handles that is to become colinear, and the selected point that it was found at.
pub struct Alignment {
    pub at: SelectedPoint,
    pub pair: (HandleId, HandleId),
}

/// Whether the pair is among the alignments, in one order or the other.
pub open spec fn is_aligned(alignments: Seq<Alignment>, pair: (HandleId, HandleId)) -> bool {
    exists|i: int|
        0 <= i < alignments.len() && ((#[trigger] alignments[i]).pair == pair || alignments[i].pair == (pair.1, pair.0))
}

/// The pair of handles of a selected point.
pub open spec fn pair_of(state: ShapeSelection, document: DocumentView, angles: Seq<HandleAngle>, at: SelectedPoint) -> Option<(HandleId, HandleId)> {
    match document.vector(state.layers[at.entry as int].layer) {
        None => None,
        Some(vector) => pair_at(vector.graph, angles, state.layers[at.entry as int].layer, at.point),
    }
}

/// The pairs of handles that are to become colinear at the selected points, each once.
pub open spec fn alignments(state: ShapeSelection, document: DocumentView, angles: Seq<HandleAngle>, points: Seq<SelectedPoint>) -> Seq<Alignment>
    decreases points.len(),
{
    if points.len() == 0 {
        Seq::empty()
    } else {
        let before = alignments(state, document, angles, points.drop_last());
        match pair_of(state, document, angles, points.last()) {
            None => before,
            Some(pair) => if is_aligned(before, pair) {
                before
            } else {
                before.push(Alignment { at: points.last(), pair })
            },
        }
    }
}

/// The requests for one of the pairs.
pub open spec fn align(state: ShapeSelection, document: DocumentView) -> spec_fn(Alignment) -> Seq<Message> {
    |alignment: Alignment|
        match document.vector(state.layers[alignment.at.entry as int].layer) {
            None => Seq::empty(),
            Some(vector) => align_pair(
                vector,
                state.layers[alignment.at.entry as int].selection,
                alignment.at.point,
                alignment.pair,
            ),
        }
}

/// The requests that make the handles at the selected points colinear.
pub open spec fn align_selected(state: ShapeSelection, document: DocumentView, angles: Seq<HandleAngle>) -> Seq<Message> {
    alignments(state, document, angles, all_points(state)).flat_map(align(state, document))
}

/// No pair of handles is made colinear twice, not even in the other order.
pub proof fn each_pair_is_aligned_once(state: ShapeSelection, document: DocumentView, angles: Seq<HandleAngle>, points: Seq<SelectedPoint>)
    ensures
        forall|i: int, j: int|
            #![trigger alignments(state, document, angles, points)[i], alignments(state, document, angles, points)[j]]
            0 <= i < j < alignments(state, document, angles, points).len() ==> {
                let first = alignments(state, document, angles, points)[i].pair;
                let second = alignments(state, document, angles, points)[j].pair;
                first != second && first != (second.1, second.0)
            },
    decreases points.len(),
{
    if points.len() > 0 {
        each_pair_is_aligned_once(state, document, angles, points.drop_last());
        let before = alignments(state, document, angles, points.drop_last());
        let found = alignments(state, document, angles, points);
        assert forall|i: int, j: int| 0 <= i < j < found.len() implies {
            let first = #[trigger] found[i].pair;
            let second = #[trigger] found[j].pair;
            first != second && first != (second.1, second.0)
        } by {
            if j < before.len() {
                assert(found[i] == before[i] && found[j] == before[j]);
            } else {
                assert(found[i] == before[i]);
                assert(!is_aligned(before, found[j].pair));
            }
        }
    }
}

/// The angles that the selected point asks for.
pub open spec fn angles_at(document: DocumentView, layer: LayerNodeIdentifier) -> spec_fn(ManipulatorPointId) -> Seq<AngleKey> {
    |point: ManipulatorPointId|
        match document.vector(layer) {
            None => Seq::empty(),
            Some(vector) => if point.as_handle() is Some {
                compared(layer, point, free_handles(vector.graph, point))
            } else {
                Seq::empty()
            },
        }
}

/// The angles that the selected points of a layer ask for.
pub open spec fn angles_in(document: DocumentView) -> spec_fn(LayerEntry) -> Seq<AngleKey> {
    |entry: LayerEntry| entry.selection.points.flat_map(angles_at(document, entry.layer))
}

/// Whether the handles around each selected one can be compared by their angles.
pub open spec fn handles_are_comparable(state: ShapeSelection, document: DocumentView) -> bool {
    forall|i: int, j: int|
        #![trigger state.layers[i].selection.points[j]]
        0 <= i < state.layers.len() && 0 <= j < state.layers[i].selection.points.len() ==> {
            let point = state.layers[i].selection.points[j];
            point.as_handle() is Some ==> match document.vector(state.layers[i].layer) {
                Some(vector) => is_comparable(vector.graph, point, free_handles(vector.graph, point)),
                None => true,
            }
        }
}

/// The handles around a selected handle that are not kept in line with another.
fn compute_free_handles(vector_data: &VectorData, point: ManipulatorPointId) -> (handles: Vec<HandleId>)
    requires
        vector_data@.wf(),
    ensures
        handles@ == free_handles(vector_data@, point),
{
    let mut handles: Vec<HandleId> = Vec::new();
    let connected: Vec<HandleId> = match point.get_all_connected_handles(vector_data) {
        Some(connected) => connected,
        None => return handles,
    };
    let ghost pred = is_free(vector_data@);
    proof {
        lemma_filter_take_ends(connected@, pred);
    }
    let mut i: usize = 0;
    while i < connected.len()
        invariant
            i <= connected.len(),
            pred == is_free(vector_data@),
            handles@ == connected@.take(i as int).filter(pred),
        decreases connected.len() - i,
    {
        proof {
            lemma_filter_take_step(connected@, pred, i as int);
        }
        if vector_data.colinear_pair(connected[i]).is_none() {
            handles.push(connected[i]);
        }
        i += 1;
    }
    handles
}

/// How far a handle turns away from the selected one.
fn compute_turn(angles: &Vec<HandleAngle>, key: AngleKey) -> (result: DVec2)
    ensures
        result == turn(angles@, key),
{
    match lookup_angle(angles, key) {
        Some(angle) => absolute(angle),
        None => splat(0),
    }
}

/// The pair of handles that a selected point stands for.
fn compute_pair(vector_data: &VectorData, angles: &Vec<HandleAngle>, layer: LayerNodeIdentifier, point: ManipulatorPointId) -> (pair: Option<(HandleId, HandleId)>)
    requires
        vector_data@.wf(),
    ensures
        pair == pair_at(vector_data@, angles@, layer, point),
{
    match point.as_handle() {
        None => {
            if let ManipulatorPointId::Anchor(anchor) = point {
                if vector_data.all_connected(anchor).len() > 2 {
                    return None;
                }
            }
            point.get_handle_pair(vector_data)
        },
        Some(current) => {
            let handles: Vec<HandleId> = compute_free_handles(vector_data, point);
            if handles.len() == 0 {
                return None;
            }
            let mut best: HandleId = handles[0];
            let mut i: usize = 1;
            while i < handles.len()
                invariant
                    1 <= i <= handles.len(),
                    best == most_opposite(angles@, layer, point, handles@, i as nat),
                decreases handles.len() - i,
            {
                let handle: HandleId = handles[i];
                let turn_best: DVec2 = compute_turn(angles, AngleKey { layer, point, handle: best });
                let turn_next: DVec2 = compute_turn(angles, AngleKey { layer, point, handle });
                if less(turn_best, turn_next) {
                    best = handle;
                }
                i += 1;
            }
            Some((current, best))
        },
    }
}

/// Moves a handle of a pair to the common axis.
fn push_spread(
    vector_data: &VectorData,
    layer: LayerNodeIdentifier,
    handle: HandleId,
    direction: Option<DVec2>,
    normalized: DVec2,
    sign: i32,
    responses: &mut VecDeque<Message>,
)
    requires
        vector_data@.wf(),
    ensures
        final(responses)@ == old(responses)@ + spread(vector_data@, layer, handle, direction, normalized, sign),
{
    if let Some(d) = direction {
        let position: DVec2 = times(times(length(d), normalized), splat(sign));
        push(responses, layer, handle.set_relative_position(position));
        push_missing_opposite(vector_data, layer, handle, responses);
    }
}

fn compute_third(position: Option<DVec2>, anchor: DVec2) -> (result: Option<DVec2>)
    ensures
        result == third_of_the_way(position, anchor),
{
    match position {
        Some(p) => Some(divide(minus(p, anchor), splat(3))),
        None => None,
    }
}

fn compute_axis(first: Option<DVec2>, second: Option<DVec2>) -> (result: Option<DVec2>)
    ensures
        result == axis(first, second),
{
    match (first, second) {
        (Some(a), Some(b)) => try_normalize(minus(a, b)),
        _ => None,
    }
}

fn compute_is_short(direction: Option<DVec2>) -> (result: bool)
    ensures
        result == is_short(direction),
{
    match direction {
        Some(d) => less(dot(d, d), epsilons(100_000)),
        None => false,
    }
}

/// Moves the only handle of a pair that is not selected in line with the selected one.
fn push_align_unselected(vector: &VectorLayer, anchor: DVec2, selected_position: DVec2, unselected: HandleId, unselected_position: DVec2, responses: &mut VecDeque<Message>)
    ensures
        final(responses)@ == old(responses)@ + align_unselected(vector@, anchor, selected_position, unselected, unselected_position),
{
    let away: DVec2 = transform_vector(vector.to_document, minus(unselected_position, anchor));
    let direction: DVec2 = match try_normalize(transform_vector(vector.to_document, minus(anchor, selected_position))) {
        Some(direction) => direction,
        None => normalize_or_zero(away),
    };
    let position: DVec2 = transform_vector(inverse(vector.to_document), times(direction, length(away)));
    if less(reciprocal(1_000_000), length(minus(anchor, selected_position))) {
        push(responses, vector.layer, unselected.set_relative_position(position));
    }
}

/// Turns both handles of a pair to their common axis. Returns whether there is one.
fn push_align_both(vector: &VectorLayer, pair: (HandleId, HandleId), anchor_id: PointId, anchor: DVec2, responses: &mut VecDeque<Message>) -> (done: bool)
    requires
        vector@.graph.wf(),
    ensures
        match align_both(vector@, pair, anchor_id, anchor) {
            Some(requests) => done && final(responses)@ == old(responses)@ + requests,
            None => !done && final(responses)@ == old(responses)@,
        },
{
    let vector_data: &VectorData = &vector.vector_data;
    let mut first: Option<DVec2> = relative(pair.0.to_manipulator_point().get_position(vector_data), anchor);
    let mut second: Option<DVec2> = relative(pair.1.to_manipulator_point().get_position(vector_data), anchor);
    if compute_axis(first, second).is_none() || compute_is_short(first) || compute_is_short(second) {
        first = compute_third(pair.0.far_anchor(vector_data, anchor_id), anchor);
        second = compute_third(pair.1.far_anchor(vector_data, anchor_id), anchor);
    }
    match compute_axis(first, second) {
        None => false,
        Some(normalized) => {
            push_spread(vector_data, vector.layer, pair.0, first, normalized, 1, responses);
            push_spread(vector_data, vector.layer, pair.1, second, normalized, -1, responses);
            true
        },
    }
}

/// Makes a pair of handles colinear.
fn push_align_pair(vector: &VectorLayer, state: &SelectedLayerState, point: ManipulatorPointId, pair: (HandleId, HandleId), responses: &mut VecDeque<Message>)
    requires
        vector@.graph.wf(),
    ensures
        final(responses)@ == old(responses)@ + align_pair(vector@, state@, point, pair),
{
    let vector_data: &VectorData = &vector.vector_data;
    let selected0: bool = state.is_point_selected(pair.0.to_manipulator_point());
    let selected1: bool = state.is_point_selected(pair.1.to_manipulator_point());
    let position0: Option<DVec2> = pair.0.to_manipulator_point().get_position(vector_data);
    let position1: Option<DVec2> = pair.1.to_manipulator_point().get_position(vector_data);
    let anchor_id: PointId = match point.get_anchor(vector_data) {
        Some(anchor) => anchor,
        None => return,
    };
    let anchor: DVec2 = match vector_data.position_from_id(anchor_id) {
        Some(position) => position,
        None => return,
    };
    let done: bool = if selected0 != selected1 && position0.is_some() && position1.is_some() {
        let pos0: DVec2 = position0.unwrap();
        let pos1: DVec2 = position1.unwrap();
        if selected0 {
            push_align_unselected(vector, anchor, pos0, pair.1, pos1, responses);
        } else {
            push_align_unselected(vector, anchor, pos1, pair.0, pos0, responses);
        }
        true
    } else {
        push_align_both(vector, pair, anchor_id, anchor, responses)
    };
    if done {
        push(responses, vector.layer, VectorModificationType::SetG1Continuous { handles: pair, enabled: true });
    }
}

impl ShapeState {
    /// All selected points, each with the place of its layer.
    fn points_with_places(&self) -> (points: Vec<SelectedPoint>)
        ensures
            points@ == all_points(self@),
            forall|i: int| 0 <= i < points@.len() ==> (#[trigger] points@[i]).entry < self@.layers.len(),
    {
        let mut points: Vec<SelectedPoint> = Vec::new();
        let ghost image = points_with_place(self@.layers);
        let ghost indices = places(self@.layers.len());
        proof {
            lemma_flat_map_take_ends(indices, image);
        }
        let mut i: usize = 0;
        while i < self.selected_shape_state.entries.len()
            invariant
                i <= self.selected_shape_state.entries.len(),
                image == points_with_place(self@.layers),
                indices == places(self@.layers.len()),
                points@ == indices.take(i as int).flat_map(image),
                forall|k: int| 0 <= k < points@.len() ==> (#[trigger] points@[k]).entry < self@.layers.len(),
            decreases self.selected_shape_state.entries.len() - i,
        {
            proof {
                lemma_flat_map_take_step(indices, image, i as int);
            }
            let ghost before = points@;
            let ghost found = image(i as int);
            let selected: &Vec<ManipulatorPointId> = &self.selected_shape_state.entries[i].state.selected_points.items;
            let mut k: usize = 0;
            while k < selected.len()
                invariant
                    k <= selected.len(),
                    i < self.selected_shape_state.entries.len(),
                    found == selected@.map_values(|point: ManipulatorPointId| SelectedPoint { entry: i, point }),
                    points@ == before + found.take(k as int),
                    forall|j: int| 0 <= j < points@.len() ==> (#[trigger] points@[j]).entry < self@.layers.len(),
                decreases selected.len() - k,
            {
                proof {
                    assert(found.take(k + 1) == found.take(k as int).push(found[k as int]));
                }
                points.push(SelectedPoint { entry: i, point: selected[k] });
                k += 1;
            }
            proof {
                assert(found.take(k as int) == found);
            }
            i += 1;
        }
        proof {
            assert(indices.take(i as int) == indices);
        }
        points
    }

    /// The angles that the selected points ask for.
    fn measure_selected(&self, document: &Document) -> (angles: Vec<HandleAngle>)
        requires
            document@.wf(),
            handles_are_comparable(self@, document@),
        ensures
            angle_keys(angles@) == self@.layers.flat_map(angles_in(document@)),
            are_measured(document@, angles@),
    {
        let mut angles: Vec<HandleAngle> = Vec::new();
        let ghost image = angles_in(document@);
        proof {
            lemma_flat_map_take_ends(self@.layers, image);
            assert(angle_keys(angles@) == Seq::<AngleKey>::empty());
        }
        let mut i: usize = 0;
        while i < self.selected_shape_state.entries.len()
            invariant
                i <= self.selected_shape_state.entries.len(),
                document@.wf(),
                handles_are_comparable(self@, document@),
                image == angles_in(document@),
                angle_keys(angles@) == self@.layers.take(i as int).flat_map(image),
                are_measured(document@, angles@),
            decreases self.selected_shape_state.entries.len() - i,
        {
            proof {
                lemma_flat_map_take_step(self@.layers, image, i as int);
            }
            let ghost before = angle_keys(angles@);
            let layer: LayerNodeIdentifier = self.selected_shape_state.entries[i].layer;
            let points: &Vec<ManipulatorPointId> = &self.selected_shape_state.entries[i].state.selected_points.items;
            let ghost inner = angles_at(document@, layer);
            proof {
                lemma_flat_map_take_ends(points@, inner);
                assert(points@ == self@.layers[i as int].selection.points);
            }
            let mut k: usize = 0;
            while k < points.len()
                invariant
                    k <= points.len(),
                    i < self.selected_shape_state.entries.len(),
                    layer == self@.layers[i as int].layer,
                    points@ == self@.layers[i as int].selection.points,
                    document@.wf(),
                    handles_are_comparable(self@, document@),
                    inner == angles_at(document@, layer),
                    angle_keys(angles@) == before + points@.take(k as int).flat_map(inner),
                    are_measured(document@, angles@),
                decreases points.len() - k,
            {
                proof {
                    lemma_flat_map_take_step(points@, inner, k as int);
                }
                let point: ManipulatorPointId = points[k];
                proof {
                    assert(point == self@.layers[i as int].selection.points[k as int]);
                }
                if point.as_handle().is_some() {
                    if let Some(vector) = document.compute_modified_vector(layer) {
                        let handles: Vec<HandleId> = compute_free_handles(&vector.vector_data, point);
                        measure(document, vector, layer, point, &handles, &mut angles);
                    }
                }
                k += 1;
            }
            i += 1;
        }
        angles
    }

    /// Makes the handles at the selected points colinear, given the angles between them.
    pub fn convert_selected_manipulators_by_angles(&self, angles: &Vec<HandleAngle>, responses: &mut VecDeque<Message>, document: &Document)
        requires
            document@.wf(),
        ensures
            final(responses)@ == old(responses)@ + align_selected(self@, document@, angles@),
    {
        let points: Vec<SelectedPoint> = self.points_with_places();
        let mut pairs: Vec<(HandleId, HandleId)> = Vec::new();
        let ghost mut found: Seq<Alignment> = Seq::empty();
        let ghost image = align(self@, document@);
        proof {
            assert(points@.take(0) == Seq::<SelectedPoint>::empty());
            assert(found.flat_map(image) == Seq::<Message>::empty()) by {
                lemma_flat_map_take_ends(found, image);
                assert(found.take(0) == found);
            }
        }
        let mut i: usize = 0;
        while i < points.len()
            invariant
                i <= points.len(),
                document@.wf(),
                image == align(self@, document@),
                forall|k: int| 0 <= k < points@.len() ==> (#[trigger] points@[k]).entry < self@.layers.len(),
                found == alignments(self@, document@, angles@, points@.take(i as int)),
                pairs@.len() == found.len(),
                forall|k: int| 0 <= k < pairs@.len() ==> #[trigger] pairs@[k] == found[k].pair,
                responses@ == old(responses)@ + found.flat_map(image),
            decreases points.len() - i,
        {
            let at: SelectedPoint = points[i];
            let ghost before = found;
            proof {
                assert(points@.take(i + 1).drop_last() == points@.take(i as int));
                assert(points@.take(i + 1).last() == at);
                found = alignments(self@, document@, angles@, points@.take(i + 1));
            }
            let layer: LayerNodeIdentifier = self.selected_shape_state.entries[at.entry].layer;
            let state: &SelectedLayerState = &self.selected_shape_state.entries[at.entry].state;
            proof {
                assert(self@.layers[at.entry as int].layer == layer);
                assert(self@.layers[at.entry as int].selection == state@);
            }
            if let Some(vector) = document.compute_modified_vector(layer) {
                if let Some(pair) = compute_pair(&vector.vector_data, angles, layer, at.point) {
                    let mut is_new: bool = true;
                    let mut k: usize = 0;
                    while k < pairs.len() && is_new
                        invariant
                            k <= pairs.len(),
                            pairs@.len() == before.len(),
                            forall|j: int| 0 <= j < pairs@.len() ==> #[trigger] pairs@[j] == before[j].pair,
                            is_new ==> forall|j: int| 0 <= j < k ==> (#[trigger] before[j]).pair != pair && before[j].pair != (pair.1, pair.0),
                            !is_new ==> is_aligned(before, pair),
                        decreases pairs.len() - k,
                    {
                        if pairs[k].0 == pair.0 && pairs[k].1 == pair.1 || pairs[k].0 == pair.1 && pairs[k].1 == pair.0 {
                            is_new = false;
                            proof {
                                assert(before[k as int].pair == pairs@[k as int]);
                            }
                        }
                        k += 1;
                    }
                    if is_new {
                        proof {
                            assert(!is_aligned(before, pair));
                            let next = before.push(Alignment { at, pair });
                            assert(found == next);
                            lemma_flat_map_take_step(next, image, before.len() as int);
                            lemma_flat_map_take_ends(next, image);
                            assert(next.take(before.len() as int) == before);
                            assert(next.take(next.len() as int) == next);
                        }
                        pairs.push(pair);
                        push_align_pair(vector, state, at.point, pair, responses);
                    }
                }
            }
            i += 1;
        }
        proof {
            assert(points@.take(i as int) == points@);
        }
    }

    /// Converts all selected points to colinear while moving the handles to ensure their 180 degrees
    /// angle separation. If only one handle is selected, the other handle will be moved to match the
    /// angle of the selected handle. If both or neither handles are selected, the angle of both
    /// handles will be averaged from their current angles, weighted by their lengths. Assumes all
    /// selected manipulators have handles that are already not colinear.
    ///
    /// For vector meshes, the non-colinear handle which is nearest in the direction of 180 degrees
    /// angle separation becomes colinear with current handle. If there is no such handle, nothing
    /// happens.
    ///
    /// The angles are measured here; what follows from them is what
    /// [`ShapeState::convert_selected_manipulators_by_angles`] does.
    pub fn convert_selected_manipulators_to_colinear_handles(&self, responses: &mut VecDeque<Message>, document: &Document)
        requires
            document@.wf(),
            handles_are_comparable(self@, document@),
        ensures
            exists|angles: Seq<HandleAngle>|
                {
                    &&& #[trigger] angle_keys(angles) == self@.layers.flat_map(angles_in(document@))
                    &&& are_measured(document@, angles)
                    &&& final(responses)@ == old(responses)@ + align_selected(self@, document@, angles)
                },
    {
        let angles: Vec<HandleAngle> = self.measure_selected(document);
        self.convert_selected_manipulators_by_angles(&angles, responses, document);
        proof {
            assert(angle_keys(angles@) == self@.layers.flat_map(angles_in(document@)));
        }
    }
}

} // verus!
