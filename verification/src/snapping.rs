//! Snapping dragged points.
use glam::{DAffine2, DVec2};
use vstd::prelude::*;

use crate::document::{Document, DocumentView, ShapeLayer, VectorLayer};
use crate::geometry::{
    difference, inverse, inverse_of, minus, plus, sum, transform_point, transform_vector, transformed_point, transformed_vector,
};
use crate::ids::{LayerNodeIdentifier, ManipulatorPointId, PointId};
use crate::selection::{LayerSelection, SelectedLayerState};
use crate::sequences::{lemma_filter_map_take_ends, lemma_filter_map_take_step, lemma_flat_map_take_ends, lemma_flat_map_take_step};
use crate::shape_state::{LayerEntry, ShapeSelection, ShapeState};
use crate::tool::PathSnapSource;
use crate::vector_data::VectorGraph;

verus! {

/// A point that may snap, where the drag takes it.
#[derive(Debug)]
pub struct SnapCandidatePoint {
    pub document_point: DVec2,
    pub source: PathSnapSource,
    /// The anchors that it is joined to and that are not dragged.
    pub neighbors: Vec<DVec2>,
}

/// A point that may snap, as mathematical values.
pub struct SnapCandidate {
    pub document_point: DVec2,
    pub source: PathSnapSource,
    pub neighbors: Seq<DVec2>,
}

impl View for SnapCandidatePoint {
    type V = SnapCandidate;

    open spec fn view(&self) -> SnapCandidate {
        SnapCandidate { document_point: self.document_point, source: self.source, neighbors: self.neighbors@ }
    }
}

/// Where a candidate snaps.
#[derive(Clone, Copy, Debug)]
pub struct SnapOutcome {
    pub snapped_point_document: DVec2,
    /// Whether this is better than the best of the candidates before.
    pub is_better: bool,
}

/// How far what is dragged goes.
#[derive(Clone, Copy, Debug)]
pub struct Snap {
    /// The way in the viewport.
    pub viewport_delta: DVec2,
    /// The candidate that decides, if one snaps.
    pub best: Option<usize>,
    /// The mouse, in the document: what is marked if nothing snaps.
    pub mouse_document: DVec2,
}

pub open spec fn candidates_view(candidates: Seq<SnapCandidatePoint>) -> Seq<SnapCandidate> {
    candidates.map_values(|candidate: SnapCandidatePoint| candidate@)
}

/// How far the mouse has moved, in the document.
pub open spec fn mouse_move(document: DocumentView, mouse: DVec2, previous_mouse: DVec2) -> DVec2 {
    transformed_vector(inverse_of(document.document_to_viewport), difference(mouse, previous_mouse))
}

/// The position of a neighbor of a dragged anchor, in the document, if it is not dragged too.
pub open spec fn resting_neighbor(vector: ShapeLayer, selection: LayerSelection) -> spec_fn(PointId) -> Option<DVec2> {
    |neighbor: PointId|
        if selection.points.contains(ManipulatorPointId::Anchor(neighbor)) {
            None
        } else {
            match vector.graph.position_from_id(neighbor) {
                Some(position) => Some(transformed_point(vector.to_document, position)),
                None => None,
            }
        }
}

/// What the point is, to what it may snap to.
pub open spec fn snap_source(graph: VectorGraph, point: ManipulatorPointId) -> PathSnapSource {
    if point.as_anchor() is None {
        PathSnapSource::HandlePoint
    } else if graph.is_colinear(point) {
        PathSnapSource::AnchorPointWithColinearHandles
    } else {
        PathSnapSource::AnchorPointWithFreeHandles
    }
}

/// A selected point as one that may snap.
pub open spec fn snap_candidate(vector: ShapeLayer, selection: LayerSelection, mouse_delta: DVec2) -> spec_fn(ManipulatorPointId) -> Option<SnapCandidate> {
    |point: ManipulatorPointId|
        match vector.graph.position(point) {
            None => None,
            Some(position) => Some(
                SnapCandidate {
                    document_point: sum(transformed_point(vector.to_document, position), mouse_delta),
                    source: snap_source(vector.graph, point),
                    neighbors: match point.as_anchor() {
                        Some(anchor) => vector.graph.connected_points(anchor).filter_map(resting_neighbor(vector, selection)),
                        None => Seq::empty(),
                    },
                },
            ),
        }
}

/// The selected points of a layer that may snap.
pub open spec fn snap_candidates_in(document: DocumentView, mouse_delta: DVec2) -> spec_fn(LayerEntry) -> Seq<SnapCandidate> {
    |entry: LayerEntry|
        match document.vector(entry.layer) {
            None => Seq::empty(),
            Some(vector) => entry.selection.points.filter_map(snap_candidate(vector, entry.selection, mouse_delta)),
        }
}

/// The selected points that may snap.
pub open spec fn all_snap_candidates(state: ShapeSelection, document: DocumentView, mouse_delta: DVec2) -> Seq<SnapCandidate> {
    state.layers.flat_map(snap_candidates_in(document, mouse_delta))
}

/// The last outcome that is better than those before.
pub open spec fn best_outcome(outcomes: Seq<SnapOutcome>) -> Option<int>
    decreases outcomes.len(),
{
    if outcomes.len() == 0 {
        None
    } else if outcomes.last().is_better {
        Some(outcomes.len() - 1)
    } else {
        best_outcome(outcomes.drop_last())
    }
}

/// How far what is dragged goes, in the document: as far as the best outcome takes its candidate, or
/// as far as the mouse.
pub open spec fn snap_offset(candidates: Seq<SnapCandidate>, outcomes: Seq<SnapOutcome>, mouse_delta: DVec2) -> DVec2 {
    match best_outcome(outcomes) {
        None => mouse_delta,
        Some(i) => sum(difference(outcomes[i].snapped_point_document, candidates[i].document_point), mouse_delta),
    }
}

/// The neighbors of a dragged anchor that rest.
fn compute_neighbors(vector: &VectorLayer, state: &SelectedLayerState, anchor: PointId) -> (neighbors: Vec<DVec2>)
    requires
        vector@.graph.wf(),
    ensures
        neighbors@ == vector@.graph.connected_points(anchor).filter_map(resting_neighbor(vector@, state@)),
{
    let points: Vec<PointId> = vector.vector_data.connected_points(anchor);
    let mut neighbors: Vec<DVec2> = Vec::new();
    let ghost image = resting_neighbor(vector@, state@);
    proof {
        lemma_filter_map_take_ends(points@, image);
    }
    let mut i: usize = 0;
    while i < points.len()
        invariant
            i <= points.len(),
            image == resting_neighbor(vector@, state@),
            neighbors@ == points@.take(i as int).filter_map(image),
        decreases points.len() - i,
    {
        proof {
            lemma_filter_map_take_step(points@, image, i as int);
        }
        if !state.is_point_selected(ManipulatorPointId::Anchor(points[i])) {
            if let Some(position) = vector.vector_data.position_from_id(points[i]) {
                neighbors.push(transform_point(vector.to_document, position));
            }
        }
        i += 1;
    }
    neighbors
}

/// A selected point as one that may snap.
fn compute_candidate(vector: &VectorLayer, state: &SelectedLayerState, mouse_delta: DVec2, point: ManipulatorPointId) -> (candidate: Option<SnapCandidatePoint>)
    requires
        vector@.graph.wf(),
    ensures
        match candidate {
            Some(c) => snap_candidate(vector@, state@, mouse_delta)(point) == Some(c@),
            None => snap_candidate(vector@, state@, mouse_delta)(point) is None,
        },
{
    let position: DVec2 = match point.get_position(&vector.vector_data) {
        Some(position) => position,
        None => return None,
    };
    let document_point: DVec2 = plus(transform_point(vector.to_document, position), mouse_delta);
    match point.as_anchor() {
        Some(anchor) => {
            let source: PathSnapSource = if vector.vector_data.colinear(point) {
                PathSnapSource::AnchorPointWithColinearHandles
            } else {
                PathSnapSource::AnchorPointWithFreeHandles
            };
            Some(SnapCandidatePoint { document_point, source, neighbors: compute_neighbors(vector, state, anchor) })
        },
        None => Some(SnapCandidatePoint { document_point, source: PathSnapSource::HandlePoint, neighbors: Vec::new() }),
    }
}

impl ShapeState {
    /// The selected points that may snap, where the drag of the mouse takes them.
    pub fn snap_candidates(&self, document: &Document, mouse: DVec2, previous_mouse: DVec2) -> (candidates: Vec<SnapCandidatePoint>)
        requires
            document@.wf(),
        ensures
            candidates_view(candidates@) == all_snap_candidates(
                self@,
                document@,
                mouse_move(document@, mouse, previous_mouse),
            ),
    {
        let mouse_delta: DVec2 = transform_vector(inverse(document.document_to_viewport), minus(mouse, previous_mouse));
        let mut candidates: Vec<SnapCandidatePoint> = Vec::new();
        let ghost image = snap_candidates_in(document@, mouse_delta);
        proof {
            lemma_flat_map_take_ends(self@.layers, image);
            assert(candidates_view(candidates@) == Seq::<SnapCandidate>::empty());
        }
        let mut i: usize = 0;
        while i < self.selected_shape_state.entries.len()
            invariant
                i <= self.selected_shape_state.entries.len(),
                document@.wf(),
                image == snap_candidates_in(document@, mouse_delta),
                candidates_view(candidates@) == self@.layers.take(i as int).flat_map(image),
            decreases self.selected_shape_state.entries.len() - i,
        {
            proof {
                lemma_flat_map_take_step(self@.layers, image, i as int);
            }
            let ghost before = candidates_view(candidates@);
            let layer: LayerNodeIdentifier = self.selected_shape_state.entries[i].layer;
            let state: &SelectedLayerState = &self.selected_shape_state.entries[i].state;
            if let Some(vector) = document.compute_modified_vector(layer) {
                let points: &Vec<ManipulatorPointId> = &state.selected_points.items;
                let ghost inner = snap_candidate(vector@, state@, mouse_delta);
                proof {
                    lemma_filter_map_take_ends(points@, inner);
                }
                let mut k: usize = 0;
                while k < points.len()
                    invariant
                        k <= points.len(),
                        vector@.graph.wf(),
                        inner == snap_candidate(vector@, state@, mouse_delta),
                        candidates_view(candidates@) == before + points@.take(k as int).filter_map(inner),
                    decreases points.len() - k,
                {
                    proof {
                        lemma_filter_map_take_step(points@, inner, k as int);
                    }
                    let ghost seen = candidates_view(candidates@);
                    if let Some(candidate) = compute_candidate(vector, state, mouse_delta, points[k]) {
                        let ghost added = candidate@;
                        candidates.push(candidate);
                        proof {
                            assert(candidates_view(candidates@) == seen.push(added));
                        }
                    }
                    k += 1;
                }
            }
            i += 1;
        }
        candidates
    }

    /// Snaps what is dragged, given where each of its [`ShapeState::snap_candidates`] snaps.
    pub fn snap(&self, document: &Document, mouse: DVec2, previous_mouse: DVec2, outcomes: &Vec<SnapOutcome>) -> (snap: Snap)
        requires
            document@.wf(),
            outcomes@.len() == all_snap_candidates(self@, document@, mouse_move(document@, mouse, previous_mouse)).len(),
        ensures
            match snap.best {
                Some(i) => best_outcome(outcomes@) == Some(i as int),
                None => best_outcome(outcomes@) is None,
            },
            snap.viewport_delta == transformed_vector(
                document@.document_to_viewport,
                snap_offset(
                    all_snap_candidates(self@, document@, mouse_move(document@, mouse, previous_mouse)),
                    outcomes@,
                    mouse_move(document@, mouse, previous_mouse),
                ),
            ),
            snap.mouse_document == transformed_point(inverse_of(document@.document_to_viewport), mouse),
    {
        let to_document: DAffine2 = inverse(document.document_to_viewport);
        let mouse_delta: DVec2 = transform_vector(to_document, minus(mouse, previous_mouse));
        let candidates: Vec<SnapCandidatePoint> = self.snap_candidates(document, mouse, previous_mouse);
        let ghost list = candidates_view(candidates@);
        let mut offset: DVec2 = mouse_delta;
        let mut best: Option<usize> = None;
        proof {
            assert(outcomes@.take(0) == Seq::<SnapOutcome>::empty());
        }
        let mut i: usize = 0;
        while i < outcomes.len()
            invariant
                i <= outcomes.len(),
                outcomes.len() == candidates.len(),
                list == candidates_view(candidates@),
                match best {
                    Some(k) => best_outcome(outcomes@.take(i as int)) == Some(k as int) && k < i,
                    None => best_outcome(outcomes@.take(i as int)) is None,
                },
                offset == snap_offset(list, outcomes@.take(i as int), mouse_delta),
            decreases outcomes.len() - i,
        {
            proof {
                assert(outcomes@.take(i + 1).drop_last() == outcomes@.take(i as int));
                assert(outcomes@.take(i + 1).last() == outcomes@[i as int]);
                assert(list[i as int] == candidates@[i as int]@);
            }
            if outcomes[i].is_better {
                offset = plus(minus(outcomes[i].snapped_point_document, candidates[i].document_point), mouse_delta);
                best = Some(i);
            }
            i += 1;
        }
        proof {
            assert(outcomes@.take(i as int) == outcomes@);
        }
        Snap {
            viewport_delta: transform_vector(document.document_to_viewport, offset),
            best,
            mouse_document: transform_point(to_document, mouse),
        }
    }
}

} // verus!
