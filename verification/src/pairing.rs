//! The pairs of handles at the selected points.
use glam::DVec2;
use vstd::prelude::*;

use crate::angles::{angle_for, angle_keys, anchor_position, are_measured, compared, direction_of, get_anchor_position, is_comparable, lookup_angle, measure, AngleKey, HandleAngle};
use crate::document::{Document, DocumentView};
use crate::geometry::{cross, cross_product, difference, full_turn, is_less, less, minus, normalize_or_zero, splat, tau, zero};
use crate::ids::{HandleId, LayerNodeIdentifier, ManipulatorPointId, PointId};

use crate::sequences::{
    find_first, lemma_filter_map_take_ends, lemma_filter_map_take_step, lemma_first_index_is, lemma_first_index_none, lemma_flat_map_take_ends,
    lemma_flat_map_take_step,
};
use crate::shape_state::{LayerEntry, ShapeSelection, ShapeState};
use crate::tool::{ManipulatorAngle, PointSelectState};
use crate::vector_data::{VectorData, VectorGraph};

verus! {

/// Whether the handles at a point are in line, if there is a pair of them.
pub open spec fn colinear_status(graph: VectorGraph) -> spec_fn(ManipulatorPointId) -> Option<bool> {
    |point: ManipulatorPointId|
        if graph.handle_pair(point) is Some {
            Some(graph.is_colinear(point))
        } else {
            None
        }
}

/// Whether the handles are in line at each selected point of a layer that has a pair of them.
pub open spec fn colinear_statuses(document: DocumentView) -> spec_fn(LayerEntry) -> Seq<bool> {
    |entry: LayerEntry|
        match document.vector(entry.layer) {
            None => Seq::empty(),
            Some(vector) => entry.selection.points.filter_map(colinear_status(vector.graph)),
        }
}

/// What the statuses have in common.
pub open spec fn common_angle(statuses: Seq<bool>) -> ManipulatorAngle {
    if statuses.len() > 0 && forall|i: int| 0 <= i < statuses.len() ==> #[trigger] statuses[i] {
        ManipulatorAngle::Colinear
    } else if statuses.len() > 0 && forall|i: int| 0 <= i < statuses.len() ==> !#[trigger] statuses[i] {
        ManipulatorAngle::Free
    } else {
        ManipulatorAngle::Mixed
    }
}

/// What a drag that starts with the point drags, unless it is a handle without a pair.
pub open spec fn drags(graph: VectorGraph) -> spec_fn(ManipulatorPointId) -> bool {
    |point: ManipulatorPointId| point.as_anchor() is Some || graph.handle_pair(point) is Some
}

/// What the selected points are, as the shape of the layer has them.
pub open spec fn dragged_in(document: DocumentView, points: Seq<ManipulatorPointId>, layer: LayerNodeIdentifier) -> Option<ManipulatorPointId> {
    match document.vector(layer) {
        None => None,
        Some(vector) => find_first(points, drags(vector.graph)),
    }
}

pub open spec fn has_dragged(document: DocumentView, points: Seq<ManipulatorPointId>) -> spec_fn(LayerEntry) -> bool {
    |entry: LayerEntry| dragged_in(document, points, entry.layer) is Some
}

/// What is being dragged: the first selected point decides that is an anchor or has a pair of
/// handles in the first layer that has such a point.
pub open spec fn dragging_state(state: ShapeSelection, document: DocumentView) -> PointSelectState {
    match find_first(state.layers, has_dragged(document, state.points())) {
        None => PointSelectState::HandleNoPair,
        Some(entry) => if dragged_in(document, state.points(), entry.layer)->0.as_anchor() is Some {
            PointSelectState::Anchor
        } else {
            PointSelectState::HandleWithPair
        },
    }
}

/// Whether one of the selected points of an entry is a handle that has a pair in the shape of its layer.
pub open spec fn is_handle_with_pair(state: ShapeSelection, document: DocumentView, entry: int, point: int) -> bool {
    &&& 0 <= entry < state.layers.len()
    &&& 0 <= point < state.layers[entry].selection.points.len()
    &&& state.layers[entry].selection.points[point].as_handle() is Some
    &&& document.vector(state.layers[entry].layer) matches Some(vector)
    &&& vector.graph.handle_pair(state.layers[entry].selection.points[point]) is Some
}

impl ShapeState {
    /// Iterates over the selected manipulator groups excluding endpoints, returning whether their
    /// handles have mixed, colinear, or free angles. If there are no points selected this function
    /// returns mixed.
    pub fn selected_manipulator_angles(&self, document: &Document) -> (angle: ManipulatorAngle)
        requires
            document@.wf(),
        ensures
            angle == common_angle(self@.layers.flat_map(colinear_statuses(document@))),
    {
        let mut statuses: Vec<bool> = Vec::new();
        let ghost image = colinear_statuses(document@);
        proof {
            lemma_flat_map_take_ends(self@.layers, image);
        }
        let mut i: usize = 0;
        while i < self.selected_shape_state.entries.len()
            invariant
                i <= self.selected_shape_state.entries.len(),
                document@.wf(),
                image == colinear_statuses(document@),
                statuses@ == self@.layers.take(i as int).flat_map(image),
            decreases self.selected_shape_state.entries.len() - i,
        {
            proof {
                lemma_flat_map_take_step(self@.layers, image, i as int);
            }
            let ghost before = statuses@;
            let layer: LayerNodeIdentifier = self.selected_shape_state.entries[i].layer;
            match document.compute_modified_vector(layer) {
                Some(vector) => {
                    let points: &Vec<ManipulatorPointId> = &self.selected_shape_state.entries[i].state.selected_points.items;
                    let ghost inner = colinear_status(vector.vector_data@);
                    proof {
                        lemma_filter_map_take_ends(points@, inner);
                    }
                    let mut k: usize = 0;
                    while k < points.len()
                        invariant
                            k <= points.len(),
                            vector.vector_data@.wf(),
                            inner == colinear_status(vector.vector_data@),
                            statuses@ == before + points@.take(k as int).filter_map(inner),
                        decreases points.len() - k,
                    {
                        proof {
                            lemma_filter_map_take_step(points@, inner, k as int);
                        }
                        if points[k].get_handle_pair(&vector.vector_data).is_some() {
                            statuses.push(vector.vector_data.colinear(points[k]));
                        }
                        k += 1;
                    }
                },
                None => {},
            }
            i += 1;
        }
        if statuses.len() == 0 {
            return ManipulatorAngle::Mixed;
        }
        let first: bool = statuses[0];
        let mut k: usize = 1;
        while k < statuses.len()
            invariant
                1 <= k <= statuses.len(),
                first == statuses@[0],
                statuses@ == self@.layers.flat_map(image),
                image == colinear_statuses(document@),
                forall|j: int| 0 <= j < k ==> #[trigger] statuses@[j] == first,
            decreases statuses.len() - k,
        {
            if statuses[k] != first {
                proof {
                    assert(statuses@[0] != statuses@[k as int]);
                }
                return ManipulatorAngle::Mixed;
            }
            k += 1;
        }
        proof {
            assert(statuses@[0] == first);
        }
        if first {
            ManipulatorAngle::Colinear
        } else {
            ManipulatorAngle::Free
        }
    }

    /// What is being dragged.
    pub fn get_dragging_state(&self, document: &Document) -> (state: PointSelectState)
        requires
            document@.wf(),
        ensures
            state == dragging_state(self@, document@),
    {
        let points: Vec<ManipulatorPointId> = self.selected_points();
        let ghost pred = has_dragged(document@, points@);
        let mut i: usize = 0;
        while i < self.selected_shape_state.entries.len()
            invariant
                i <= self.selected_shape_state.entries.len(),
                document@.wf(),
                points@ == self@.points(),
                pred == has_dragged(document@, points@),
                forall|j: int| 0 <= j < i ==> !pred(#[trigger] self@.layers[j]),
            decreases self.selected_shape_state.entries.len() - i,
        {
            let layer: LayerNodeIdentifier = self.selected_shape_state.entries[i].layer;
            proof {
                assert(self@.layers[i as int].layer == layer);
            }
            if let Some(vector) = document.compute_modified_vector(layer) {
                let ghost inner = drags(vector.vector_data@);
                let mut k: usize = 0;
                while k < points.len()
                    invariant
                        k <= points.len(),
                        i < self.selected_shape_state.entries.len(),
                        vector.vector_data@.wf(),
                        document@.vector(layer) == Some(vector@),
                        self@.layers[i as int].layer == layer,
                        points@ == self@.points(),
                        pred == has_dragged(document@, points@),
                        inner == drags(vector.vector_data@),
                        forall|j: int| 0 <= j < i ==> !pred(#[trigger] self@.layers[j]),
                        forall|j: int| 0 <= j < k ==> !inner(#[trigger] points@[j]),
                    decreases points.len() - k,
                {
                    let is_anchor: bool = points[k].as_anchor().is_some();
                    if is_anchor || points[k].get_handle_pair(&vector.vector_data).is_some() {
                        proof {
                            lemma_first_index_is(points@, inner, k as int);
                            lemma_first_index_is(self@.layers, pred, i as int);
                        }
                        return if is_anchor {
                            PointSelectState::Anchor
                        } else {
                            PointSelectState::HandleWithPair
                        };
                    }
                    k += 1;
                }
                proof {
                    lemma_first_index_none(points@, inner);
                }
            }
            i += 1;
        }
        proof {
            lemma_first_index_none(self@.layers, pred);
        }
        PointSelectState::HandleNoPair
    }

    /// Returns true if at least one handle with pair is selected.
    pub fn handle_with_pair_selected(&mut self, document: &Document) -> (result: bool)
        requires
            document@.wf(),
        ensures
            result == exists|i: int, k: int| #[trigger] is_handle_with_pair(old(self)@, document@, i, k),
            *final(self) == *old(self),
    {
        let mut i: usize = 0;
        while i < self.selected_shape_state.entries.len()
            invariant
                i <= self.selected_shape_state.entries.len(),
                *self == *old(self),
                document@.wf(),
                forall|j: int, k: int| j < i ==> !#[trigger] is_handle_with_pair(self@, document@, j, k),
            decreases self.selected_shape_state.entries.len() - i,
        {
            let layer: LayerNodeIdentifier = self.selected_shape_state.entries[i].layer;
            let points: &Vec<ManipulatorPointId> = &self.selected_shape_state.entries[i].state.selected_points.items;
            proof {
                assert(self@.layers[i as int].layer == layer);
                assert(self@.layers[i as int].selection.points == points@);
            }
            if let Some(vector) = document.compute_modified_vector(layer) {
                let mut k: usize = 0;
                while k < points.len()
                    invariant
                        k <= points.len(),
                        i < self.selected_shape_state.entries.len(),
                        *self == *old(self),
                        vector.vector_data@.wf(),
                        document@.vector(layer) == Some(vector@),
                        self@.layers[i as int].layer == layer,
                        self@.layers[i as int].selection.points == points@,
                        forall|j: int| j < k ==> !#[trigger] is_handle_with_pair(self@, document@, i as int, j),
                    decreases points.len() - k,
                {
                    if points[k].as_handle().is_some() && points[k].get_handle_pair(&vector.vector_data).is_some() {
                        proof {
                            assert(is_handle_with_pair(self@, document@, i as int, k as int));
                        }
                        return true;
                    }
                    k += 1;
                }
            }
            i += 1;
        }
        false
    }
}

/// A point of a layer that gives up being selected for another one.
#[derive(Clone, Copy, Debug)]
pub struct Swap {
    pub layer: LayerNodeIdentifier,
    pub deselect: ManipulatorPointId,
    pub select: ManipulatorPointId,
}

/// The angle from a handle to another, all the way round in one sense: the measured angle, or what
/// it leaves of a full turn where the other one is on the far side.
pub open spec fn turn_in_sense(graph: VectorGraph, angles: Seq<HandleAngle>, key: AngleKey) -> DVec2 {
    let measured = match angle_for(angles, key) {
        Some(angle) => angle,
        None => zero(),
    };
    match anchor_position(graph, key.point) {
        None => measured,
        Some(anchor) => match (direction_of(graph, key.point, anchor), direction_of(graph, key.handle.to_manipulator_point(), anchor)) {
            (Some(from), Some(to)) => if is_less(cross_product(from, to), zero()) {
                difference(tau(), measured)
            } else {
                measured
            },
            _ => measured,
        },
    }
}

/// The first of those among the first `n` handles that come next after the point.
pub open spec fn next_handle(graph: VectorGraph, angles: Seq<HandleAngle>, layer: LayerNodeIdentifier, point: ManipulatorPointId, handles: Seq<HandleId>, n: nat) -> HandleId
    decreases n,
{
    if n <= 1 {
        handles[0]
    } else {
        let best = next_handle(graph, angles, layer, point, handles, (n - 1) as nat);
        let handle = handles[n - 1];
        if is_less(
            turn_in_sense(graph, angles, AngleKey { layer, point, handle }),
            turn_in_sense(graph, angles, AngleKey { layer, point, handle: best }),
        ) {
            handle
        } else {
            best
        }
    }
}

/// The handles around a handle.
pub open spec fn handles_around(graph: VectorGraph, point: ManipulatorPointId) -> Seq<HandleId> {
    match graph.connected_handles(point) {
        Some(handles) => handles,
        None => Seq::empty(),
    }
}

/// The handle that is to be selected in place of a selected one.
pub open spec fn swap_at(graph: VectorGraph, angles: Seq<HandleAngle>, layer: LayerNodeIdentifier) -> spec_fn(ManipulatorPointId) -> Option<Swap> {
    |point: ManipulatorPointId|
        {
            let handles = handles_around(graph, point);
            if point.as_anchor() is Some || handles.len() == 0 {
                None
            } else {
                Some(
                    Swap {
                        layer,
                        deselect: point,
                        select: next_handle(graph, angles, layer, point, handles, handles.len()).to_manipulator_point(),
                    },
                )
            }
        }
}

/// The handles that are to be selected in place of the selected ones, as the shape of a layer has
/// them.
pub open spec fn swaps_in(document: DocumentView, angles: Seq<HandleAngle>, points: Seq<ManipulatorPointId>) -> spec_fn(LayerEntry) -> Seq<Swap> {
    |entry: LayerEntry|
        match document.vector(entry.layer) {
            None => Seq::empty(),
            Some(vector) => points.filter_map(swap_at(vector.graph, angles, entry.layer)),
        }
}

/// The selection after a swap, which does nothing where both points are selected.
pub open spec fn swap_points(state: ShapeSelection, swap: Swap) -> ShapeSelection {
    match state.index_of(swap.layer) {
        None => state,
        Some(i) => {
            let selection = state.layers[i].selection;
            if selection.points.contains(swap.deselect) && selection.points.contains(swap.select) {
                state
            } else {
                state.set_selection(i, selection.deselect_point(swap.deselect).select_point(swap.select))
            }
        },
    }
}

/// The selection after the swaps, one after the other.
pub open spec fn swap_all(state: ShapeSelection, swaps: Seq<Swap>) -> ShapeSelection
    decreases swaps.len(),
{
    if swaps.len() == 0 {
        state
    } else {
        swap_points(swap_all(state, swaps.drop_last()), swaps.last())
    }
}

/// The selection after the selected handles have been exchanged for the next ones around their
/// anchors.
pub open spec fn alternate(state: ShapeSelection, document: DocumentView, angles: Seq<HandleAngle>) -> ShapeSelection {
    swap_all(state, state.layers.flat_map(swaps_in(document, angles, state.points())))
}

/// The angles that a selected handle asks for.
pub open spec fn turns_at(graph: VectorGraph, layer: LayerNodeIdentifier) -> spec_fn(ManipulatorPointId) -> Seq<AngleKey> {
    |point: ManipulatorPointId|
        if point.as_anchor() is Some {
            Seq::empty()
        } else {
            compared(layer, point, handles_around(graph, point))
        }
}

/// The angles that the selected handles ask for, as the shape of a layer has them.
pub open spec fn turns_in(document: DocumentView, points: Seq<ManipulatorPointId>) -> spec_fn(LayerEntry) -> Seq<AngleKey> {
    |entry: LayerEntry|
        match document.vector(entry.layer) {
            None => Seq::empty(),
            Some(vector) => points.flat_map(turns_at(vector.graph, entry.layer)),
        }
}

/// Whether the handles around each selected one can be compared by their angles, in each layer.
pub open spec fn neighbors_are_comparable(state: ShapeSelection, document: DocumentView) -> bool {
    forall|i: int, j: int|
        #![trigger state.layers[i], state.points()[j]]
        0 <= i < state.layers.len() && 0 <= j < state.points().len() ==> {
            let point = state.points()[j];
            point.as_anchor() is None ==> match document.vector(state.layers[i].layer) {
                Some(vector) => is_comparable(vector.graph, point, handles_around(vector.graph, point)),
                None => true,
            }
        }
}

/// The angle from a handle to another, all the way round in one sense.
fn compute_turn_in_sense(vector_data: &VectorData, angles: &Vec<HandleAngle>, key: AngleKey) -> (result: DVec2)
    requires
        vector_data@.wf(),
    ensures
        result == turn_in_sense(vector_data@, angles@, key),
{
    let measured: DVec2 = match lookup_angle(angles, key) {
        Some(angle) => angle,
        None => splat(0),
    };
    let anchor: DVec2 = match get_anchor_position(vector_data, key.point) {
        Some(anchor) => anchor,
        None => return measured,
    };
    let from: DVec2 = match key.point.get_position(vector_data) {
        Some(position) => normalize_or_zero(minus(position, anchor)),
        None => return measured,
    };
    let to: DVec2 = match key.handle.to_manipulator_point().get_position(vector_data) {
        Some(position) => normalize_or_zero(minus(position, anchor)),
        None => return measured,
    };
    if less(cross(from, to), splat(0)) {
        minus(full_turn(), measured)
    } else {
        measured
    }
}

/// The handle that is to be selected in place of a selected one.
fn compute_swap(vector_data: &VectorData, angles: &Vec<HandleAngle>, layer: LayerNodeIdentifier, point: ManipulatorPointId) -> (swap: Option<Swap>)
    requires
        vector_data@.wf(),
    ensures
        swap == swap_at(vector_data@, angles@, layer)(point),
{
    if point.as_anchor().is_some() {
        return None;
    }
    let handles: Vec<HandleId> = match point.get_all_connected_handles(vector_data) {
        Some(handles) => handles,
        None => return None,
    };
    if handles.len() == 0 {
        return None;
    }
    let mut best: HandleId = handles[0];
    let mut i: usize = 1;
    while i < handles.len()
        invariant
            1 <= i <= handles.len(),
            vector_data@.wf(),
            best == next_handle(vector_data@, angles@, layer, point, handles@, i as nat),
        decreases handles.len() - i,
    {
        let handle: HandleId = handles[i];
        let turn_next: DVec2 = compute_turn_in_sense(vector_data, angles, AngleKey { layer, point, handle });
        let turn_best: DVec2 = compute_turn_in_sense(vector_data, angles, AngleKey { layer, point, handle: best });
        if less(turn_next, turn_best) {
            best = handle;
        }
        i += 1;
    }
    Some(Swap { layer, deselect: point, select: best.to_manipulator_point() })
}

impl ShapeState {
    /// The angles that the selected handles ask for.
    fn measure_turns(&self, document: &Document) -> (angles: Vec<HandleAngle>)
        requires
            document@.wf(),
            neighbors_are_comparable(self@, document@),
        ensures
            angle_keys(angles@) == self@.layers.flat_map(turns_in(document@, self@.points())),
            are_measured(document@, angles@),
    {
        let mut angles: Vec<HandleAngle> = Vec::new();
        let points: Vec<ManipulatorPointId> = self.selected_points();
        let ghost image = turns_in(document@, points@);
        proof {
            lemma_flat_map_take_ends(self@.layers, image);
            assert(angle_keys(angles@) == Seq::<AngleKey>::empty());
        }
        let mut i: usize = 0;
        while i < self.selected_shape_state.entries.len()
            invariant
                i <= self.selected_shape_state.entries.len(),
                document@.wf(),
                points@ == self@.points(),
                neighbors_are_comparable(self@, document@),
                image == turns_in(document@, points@),
                angle_keys(angles@) == self@.layers.take(i as int).flat_map(image),
                are_measured(document@, angles@),
            decreases self.selected_shape_state.entries.len() - i,
        {
            proof {
                lemma_flat_map_take_step(self@.layers, image, i as int);
            }
            let ghost before = angle_keys(angles@);
            let layer: LayerNodeIdentifier = self.selected_shape_state.entries[i].layer;
            if let Some(vector) = document.compute_modified_vector(layer) {
                let ghost inner = turns_at(vector.vector_data@, layer);
                proof {
                    lemma_flat_map_take_ends(points@, inner);
                }
                let mut k: usize = 0;
                while k < points.len()
                    invariant
                        k <= points.len(),
                        i < self.selected_shape_state.entries.len(),
                        layer == self@.layers[i as int].layer,
                        points@ == self@.points(),
                        vector.vector_data@.wf(),
                        document@.vector(layer) == Some(vector@),
                        neighbors_are_comparable(self@, document@),
                        inner == turns_at(vector.vector_data@, layer),
                        angle_keys(angles@) == before + points@.take(k as int).flat_map(inner),
                        are_measured(document@, angles@),
                    decreases points.len() - k,
                {
                    proof {
                        lemma_flat_map_take_step(points@, inner, k as int);
                        assert(points@[k as int] == self@.points()[k as int]);
                    }
                    let point: ManipulatorPointId = points[k];
                    if point.as_anchor().is_none() {
                        if let Some(handles) = point.get_all_connected_handles(&vector.vector_data) {
                            measure(document, vector, layer, point, &handles, &mut angles);
                        }
                    }
                    k += 1;
                }
            }
            i += 1;
        }
        angles
    }

    /// Exchanges a selected point for another one.
    fn swap_points(&mut self, swap: Swap)
        requires
            old(self)@.wf(),
        ensures
            final(self)@ == swap_points(old(self)@, swap),
            final(self)@.wf(),
    {
        if let Some(i) = self.index_of(swap.layer) {
            let ghost before = self@;
            proof {
                assert(before.layers[i as int].selection.wf());
            }
            let both: bool = self.selected_shape_state.entries[i].state.is_point_selected(swap.deselect)
                && self.selected_shape_state.entries[i].state.is_point_selected(swap.select);
            if !both {
                self.selected_shape_state.entries[i].state.deselect_point(swap.deselect);
                self.selected_shape_state.entries[i].state.select_point(swap.select);
                proof {
                    let selection = before.layers[i as int].selection.deselect_point(swap.deselect).select_point(swap.select);
                    assert(self@.layers == before.set_selection(i as int, selection).layers);
                }
            }
        }
    }

    /// Exchanges the selected handles for the next ones around their anchors, given the angles
    /// between them.
    pub fn alternate_selected_handles_by_angles(&mut self, angles: &Vec<HandleAngle>, document: &Document)
        requires
            old(self)@.wf(),
            document@.wf(),
        ensures
            final(self)@ == alternate(old(self)@, document@, angles@),
            final(self)@.wf(),
    {
        let ghost start = self@;
        let points: Vec<ManipulatorPointId> = self.selected_points();
        let mut swaps: Vec<Swap> = Vec::new();
        let ghost image = swaps_in(document@, angles@, points@);
        proof {
            lemma_flat_map_take_ends(start.layers, image);
        }
        let mut i: usize = 0;
        while i < self.selected_shape_state.entries.len()
            invariant
                i <= self.selected_shape_state.entries.len(),
                document@.wf(),
                self@ == start,
                start.wf(),
                points@ == start.points(),
                image == swaps_in(document@, angles@, points@),
                swaps@ == start.layers.take(i as int).flat_map(image),
            decreases self.selected_shape_state.entries.len() - i,
        {
            proof {
                lemma_flat_map_take_step(start.layers, image, i as int);
            }
            let ghost before = swaps@;
            let layer: LayerNodeIdentifier = self.selected_shape_state.entries[i].layer;
            proof {
                assert(start.layers[i as int].layer == layer);
            }
            if let Some(vector) = document.compute_modified_vector(layer) {
                let ghost inner = swap_at(vector.vector_data@, angles@, layer);
                proof {
                    lemma_filter_map_take_ends(points@, inner);
                }
                let mut k: usize = 0;
                while k < points.len()
                    invariant
                        k <= points.len(),
                        vector.vector_data@.wf(),
                        inner == swap_at(vector.vector_data@, angles@, layer),
                        swaps@ == before + points@.take(k as int).filter_map(inner),
                    decreases points.len() - k,
                {
                    proof {
                        lemma_filter_map_take_step(points@, inner, k as int);
                    }
                    if let Some(swap) = compute_swap(&vector.vector_data, angles, layer, points[k]) {
                        swaps.push(swap);
                    }
                    k += 1;
                }
            }
            i += 1;
        }
        let mut k: usize = 0;
        while k < swaps.len()
            invariant
                k <= swaps.len(),
                self@ == swap_all(start, swaps@.take(k as int)),
                self@.wf(),
            decreases swaps.len() - k,
        {
            proof {
                assert(swaps@.take(k + 1).drop_last() == swaps@.take(k as int));
            }
            self.swap_points(swaps[k]);
            k += 1;
        }
        proof {
            assert(swaps@.take(k as int) == swaps@);
        }
    }

    /// Alternate selected handles to mirrors: each is exchanged for the next one around its anchor.
    ///
    /// The angles are measured here; what follows from them is what
    /// [`ShapeState::alternate_selected_handles_by_angles`] does.
    pub fn alternate_selected_handles(&mut self, document: &Document)
        requires
            old(self)@.wf(),
            document@.wf(),
            neighbors_are_comparable(old(self)@, document@),
        ensures
            exists|angles: Seq<HandleAngle>|
                {
                    &&& #[trigger] angle_keys(angles) == old(self)@.layers.flat_map(turns_in(document@, old(self)@.points()))
                    &&& are_measured(document@, angles)
                    &&& final(self)@ == alternate(old(self)@, document@, angles)
                },
            final(self)@.wf(),
    {
        let angles: Vec<HandleAngle> = self.measure_turns(document);
        proof {
            assert(angle_keys(angles@) == self@.layers.flat_map(turns_in(document@, self@.points())));
        }
        self.alternate_selected_handles_by_angles(&angles, document);
    }
}

/// What is to be selected beside a selected handle: its anchor and the handle that it is paired
/// with.
#[derive(Clone, Copy, Debug)]
pub struct Companions {
    pub layer: LayerNodeIdentifier,
    pub anchor: Option<PointId>,
    pub handle: Option<ManipulatorPointId>,
}

/// The companions of a selected handle.
pub open spec fn companions_of(graph: VectorGraph, layer: LayerNodeIdentifier) -> spec_fn(ManipulatorPointId) -> Option<Companions> {
    |point: ManipulatorPointId|
        if point.as_handle() is None {
            None
        } else {
            Some(
                Companions {
                    layer,
                    anchor: graph.anchor(point),
                    handle: match graph.handle_pair(point) {
                        Some(pair) => Some(pair.1.to_manipulator_point()),
                        None => None,
                    },
                },
            )
        }
}

/// The companions of the selected handles, as the shape of a layer has them.
pub open spec fn companions_in(document: DocumentView, points: Seq<ManipulatorPointId>) -> spec_fn(LayerEntry) -> Seq<Companions> {
    |entry: LayerEntry|
        match document.vector(entry.layer) {
            None => Seq::empty(),
            Some(vector) => points.filter_map(companions_of(vector.graph, entry.layer)),
        }
}

/// The selection with the companions of a handle.
pub open spec fn select_companions(state: ShapeSelection, companions: Companions) -> ShapeSelection {
    match state.index_of(companions.layer) {
        None => state,
        Some(i) => {
            let selection = state.layers[i].selection;
            let with_anchor = match companions.anchor {
                Some(anchor) => selection.select_point(ManipulatorPointId::Anchor(anchor)),
                None => selection,
            };
            let with_handle = match companions.handle {
                Some(handle) => with_anchor.select_point(handle),
                None => with_anchor,
            };
            state.set_selection(i, with_handle)
        },
    }
}

/// The selection with all of the companions.
pub open spec fn select_all_companions(state: ShapeSelection, companions: Seq<Companions>) -> ShapeSelection
    decreases companions.len(),
{
    if companions.len() == 0 {
        state
    } else {
        select_companions(select_all_companions(state, companions.drop_last()), companions.last())
    }
}

impl ShapeState {
    /// Selects the companions of a handle.
    fn select_companions(&mut self, companions: Companions)
        requires
            old(self)@.wf(),
        ensures
            final(self)@ == select_companions(old(self)@, companions),
            final(self)@.wf(),
    {
        if let Some(i) = self.index_of(companions.layer) {
            let ghost before = self@;
            proof {
                assert(before.layers[i as int].selection.wf());
            }
            if let Some(anchor) = companions.anchor {
                self.selected_shape_state.entries[i].state.select_point(ManipulatorPointId::Anchor(anchor));
            }
            if let Some(handle) = companions.handle {
                self.selected_shape_state.entries[i].state.select_point(handle);
            }
            proof {
                assert(self@.layers == select_companions(before, companions).layers);
            }
        }
    }

    /// Selects handles and anchor connected to current handle.
    pub fn select_handles_and_anchor_connected_to_current_handle(&mut self, document: &Document)
        requires
            old(self)@.wf(),
            document@.wf(),
        ensures
            final(self)@ == select_all_companions(
                old(self)@,
                old(self)@.layers.flat_map(companions_in(document@, old(self)@.points())),
            ),
            final(self)@.wf(),
    {
        let ghost start = self@;
        let points: Vec<ManipulatorPointId> = self.selected_points();
        let mut found: Vec<Companions> = Vec::new();
        let ghost image = companions_in(document@, points@);
        proof {
            lemma_flat_map_take_ends(start.layers, image);
        }
        let mut i: usize = 0;
        while i < self.selected_shape_state.entries.len()
            invariant
                i <= self.selected_shape_state.entries.len(),
                document@.wf(),
                self@ == start,
                start.wf(),
                points@ == start.points(),
                image == companions_in(document@, points@),
                found@ == start.layers.take(i as int).flat_map(image),
            decreases self.selected_shape_state.entries.len() - i,
        {
            proof {
                lemma_flat_map_take_step(start.layers, image, i as int);
            }
            let ghost before = found@;
            let layer: LayerNodeIdentifier = self.selected_shape_state.entries[i].layer;
            proof {
                assert(start.layers[i as int].layer == layer);
            }
            if let Some(vector) = document.compute_modified_vector(layer) {
                let ghost inner = companions_of(vector.vector_data@, layer);
                proof {
                    lemma_filter_map_take_ends(points@, inner);
                }
                let mut k: usize = 0;
                while k < points.len()
                    invariant
                        k <= points.len(),
                        vector.vector_data@.wf(),
                        inner == companions_of(vector.vector_data@, layer),
                        found@ == before + points@.take(k as int).filter_map(inner),
                    decreases points.len() - k,
                {
                    proof {
                        lemma_filter_map_take_step(points@, inner, k as int);
                    }
                    let point: ManipulatorPointId = points[k];
                    if point.as_handle().is_some() {
                        let anchor: Option<PointId> = point.get_anchor(&vector.vector_data);
                        let handle: Option<ManipulatorPointId> = match point.get_handle_pair(&vector.vector_data) {
                            Some(pair) => Some(pair.1.to_manipulator_point()),
                            None => None,
                        };
                        found.push(Companions { layer, anchor, handle });
                    }
                    k += 1;
                }
            }
            i += 1;
        }
        let mut k: usize = 0;
        while k < found.len()
            invariant
                k <= found.len(),
                self@ == select_all_companions(start, found@.take(k as int)),
                self@.wf(),
            decreases found.len() - k,
        {
            proof {
                assert(found@.take(k + 1).drop_last() == found@.take(k as int));
            }
            self.select_companions(found[k]);
            k += 1;
        }
        proof {
            assert(found@.take(k as int) == found@);
        }
    }
}

} // verus!
