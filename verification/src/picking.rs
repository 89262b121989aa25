//! Finding the point under the mouse.
use glam::DVec2;
use vstd::prelude::*;

use crate::document::{Document, DocumentView, ShapeLayer, VectorLayer};
use crate::geometry::{
    at_most, difference, dot, greatest, is_at_most, is_less, largest, less, minus, product, squared_distance, squared_distance_of,
    squared_length, times, transform_point, transformed_point,
};
use crate::ids::{LayerNodeIdentifier, ManipulatorPointId, SegmentId};
use crate::sequences::{find_first, lemma_first_index, lemma_first_index_is, lemma_first_index_none, lemma_flat_map_take_ends, lemma_flat_map_take_step};
use crate::shape_state::{entry_is, LayerEntry, ShapeSelection, ShapeState};
use crate::vector_data::{Bezier, BezierHandles, AnchorPoint, Segment, VectorData};

verus! {

/// A point of a layer.
#[derive(Clone, Copy, Debug, Eq, PartialEq, Structural)]
pub struct ManipulatorPointInfo {
    pub layer: LayerNodeIdentifier,
    pub point_id: ManipulatorPointId,
}

/// The selected points, and how far the mouse is from the one that it points at.
#[derive(Debug)]
pub struct SelectedPointsInfo {
    pub points: Vec<ManipulatorPointInfo>,
    pub offset: DVec2,
    pub vector_data: VectorData,
}

/// The selected segments of a shape.
#[derive(Debug)]
pub struct SelectedSegmentsInfo {
    pub segments: Vec<SegmentId>,
    pub vector_data: VectorData,
}

/// A point that can be picked, with its squared distance from the mouse, in both coordinates.
#[derive(Clone, Copy, Debug)]
pub struct Candidate {
    pub id: ManipulatorPointId,
    pub distance: DVec2,
}

/// Whether a handle is shown: it is more than the distance from the anchor.
pub open spec fn is_shown(hide_distance: DVec2, handle: DVec2, anchor: DVec2) -> bool {
    is_less(product(hide_distance, hide_distance), squared_length(difference(handle, anchor)))
}

/// The curve of a segment, in the viewport.
pub open spec fn viewport_bezier(vector: ShapeLayer, segment: Segment) -> Bezier {
    let bezier = vector.graph.bezier(segment);
    let t = vector.to_viewport;
    Bezier {
        start: transformed_point(t, bezier.start),
        end: transformed_point(t, bezier.end),
        handles: match bezier.handles {
            BezierHandles::Linear => BezierHandles::Linear,
            BezierHandles::Quadratic { handle } => BezierHandles::Quadratic { handle: transformed_point(t, handle) },
            BezierHandles::Cubic { handle_start, handle_end } => BezierHandles::Cubic {
                handle_start: transformed_point(t, handle_start),
                handle_end: transformed_point(t, handle_end),
            },
        },
    }
}

/// The handle next to the start of a curve, if it is shown. That of a quadratic curve has to be away
/// from both ends.
pub open spec fn primary_candidate(hide_distance: DVec2, bezier: Bezier, id: SegmentId, position: DVec2) -> Seq<Candidate> {
    match bezier.handle_start() {
        Some(handle) => if is_shown(hide_distance, handle, bezier.start) && (bezier.handle_end() is Some || is_shown(
            hide_distance,
            handle,
            bezier.end,
        )) {
            seq![Candidate { id: ManipulatorPointId::PrimaryHandle(id), distance: squared_distance_of(handle, position) }]
        } else {
            Seq::empty()
        },
        None => Seq::empty(),
    }
}

/// The handle next to the end of a curve, if it is shown.
pub open spec fn end_candidate(hide_distance: DVec2, bezier: Bezier, id: SegmentId, position: DVec2) -> Seq<Candidate> {
    match bezier.handle_end() {
        Some(handle) => if is_shown(hide_distance, handle, bezier.end) {
            seq![Candidate { id: ManipulatorPointId::EndHandle(id), distance: squared_distance_of(handle, position) }]
        } else {
            Seq::empty()
        },
        None => Seq::empty(),
    }
}

/// The handles of a segment that can be picked.
pub open spec fn handle_candidates(hide_distance: DVec2, vector: ShapeLayer, position: DVec2) -> spec_fn(Segment) -> Seq<Candidate> {
    |segment: Segment|
        {
            let bezier = viewport_bezier(vector, segment);
            primary_candidate(hide_distance, bezier, segment.id, position) + end_candidate(
                hide_distance,
                bezier,
                segment.id,
                position,
            )
        }
}

/// An anchor, which can always be picked.
pub open spec fn anchor_candidate(vector: ShapeLayer, position: DVec2) -> spec_fn(AnchorPoint) -> Candidate {
    |point: AnchorPoint|
        Candidate {
            id: ManipulatorPointId::Anchor(point.id),
            distance: squared_distance_of(transformed_point(vector.to_viewport, point.position), position),
        }
}

/// All points of a shape that can be picked: the handles of its segments, then its anchors.
pub open spec fn candidates(hide_distance: DVec2, vector: ShapeLayer, position: DVec2) -> Seq<Candidate> {
    vector.graph.segments.flat_map(handle_candidates(hide_distance, vector, position)) + vector.graph.points.map_values(
        anchor_candidate(vector, position),
    )
}

/// The last of the nearest candidates.
pub open spec fn closest(candidates: Seq<Candidate>) -> Option<Candidate>
    decreases candidates.len(),
{
    if candidates.len() == 0 {
        None
    } else {
        let before = closest(candidates.drop_last());
        let bound = match before {
            Some(candidate) => candidate.distance,
            None => largest(),
        };
        if is_at_most(candidates.last().distance, bound) {
            Some(candidates.last())
        } else {
            before
        }
    }
}

/// The closest candidate is one of the candidates, and none is nearer; there is one exactly if some candidate is at a
/// distance that is finite.
pub proof fn closest_is_nearest(candidates: Seq<Candidate>)
    ensures
        match closest(candidates) {
            Some(candidate) => {
                &&& candidates.contains(candidate)
                &&& is_at_most(candidate.distance, largest())
                &&& forall|i: int| 0 <= i < candidates.len() ==> !is_less((#[trigger] candidates[i]).distance, candidate.distance)
            },
            None => forall|i: int| 0 <= i < candidates.len() ==> !is_at_most((#[trigger] candidates[i]).distance, largest()),
        },
    decreases candidates.len(),
{
    if candidates.len() > 0 {
        let rest = candidates.drop_last();
        closest_is_nearest(rest);
        assert forall|i: int| 0 <= i < candidates.len() - 1 implies (#[trigger] candidates[i]) == rest[i] by {}
        assert(candidates[candidates.len() - 1] == candidates.last());
        if let Some(candidate) = closest(rest) {
            let k = choose|k: int| 0 <= k < rest.len() && rest[k] == candidate;
            assert(candidates[k] == candidate);
        }
    }
}

/// The closest point of a layer, if the layer has a shape.
pub open spec fn closest_in_layer(document: DocumentView, layer: LayerNodeIdentifier, position: DVec2) -> Option<Candidate> {
    match document.vector(layer) {
        None => None,
        Some(vector) => closest(candidates(document.hide_handle_distance, vector, position)),
    }
}

/// Whether the closest point of a layer is nearer than the limit.
pub open spec fn is_near(document: DocumentView, position: DVec2, limit: DVec2) -> spec_fn(LayerEntry) -> bool {
    |entry: LayerEntry|
        match closest_in_layer(document, entry.layer, position) {
            None => false,
            Some(candidate) => is_less(candidate.distance, limit),
        }
}

/// The closest point of the first layer of which it is nearer than the limit.
pub open spec fn nearest_point(state: ShapeSelection, document: DocumentView, position: DVec2, limit: DVec2) -> Option<ManipulatorPointInfo> {
    match find_first(state.layers, is_near(document, position, limit)) {
        None => None,
        Some(entry) => Some(
            ManipulatorPointInfo {
                layer: entry.layer,
                point_id: closest_in_layer(document, entry.layer, position)->0.id,
            },
        ),
    }
}

/// The nearest point, if it is among those that are visible.
pub open spec fn nearest_visible_point(
    state: ShapeSelection,
    document: DocumentView,
    position: DVec2,
    limit: DVec2,
    visible: Seq<ManipulatorPointInfo>,
) -> Option<ManipulatorPointInfo> {
    match nearest_point(state, document, position, limit) {
        Some(info) => if visible.contains(info) {
            Some(info)
        } else {
            None
        },
        None => None,
    }
}

/// The points of a layer that are selected.
pub open spec fn infos_in() -> spec_fn(LayerEntry) -> Seq<ManipulatorPointInfo> {
    |entry: LayerEntry|
        entry.selection.points.map_values(
            |point: ManipulatorPointId|
                ManipulatorPointInfo { layer: entry.layer, point_id: point },
        )
}

/// All points that are selected, each with its layer.
pub open spec fn selected_infos(state: ShapeSelection) -> Seq<ManipulatorPointInfo> {
    state.layers.flat_map(infos_in())
}

/// How far the mouse is from the point, in the viewport; `None` if the point has no position.
pub open spec fn offset_to(document: DocumentView, info: ManipulatorPointInfo, mouse_position: DVec2) -> Option<DVec2> {
    match document.vector(info.layer) {
        None => None,
        Some(vector) => match vector.graph.position(info.point_id) {
            None => None,
            Some(position) => Some(difference(mouse_position, transformed_point(vector.to_viewport, position))),
        },
    }
}

/// The selection after a click on the point: it is selected, and only it unless the selection is
/// extended or it was selected before.
pub open spec fn click_point(state: ShapeSelection, info: ManipulatorPointInfo, extend_selection: bool) -> ShapeSelection {
    match state.index_of(info.layer) {
        None => state,
        Some(i) => {
            let base = if extend_selection || state.layers[i].selection.points.contains(info.point_id) {
                state
            } else {
                state.change_all(|e: LayerEntry| e.selection.clear_points()).change_all(
                    |e: LayerEntry| e.selection.clear_segments(),
                )
            };
            base.set_selection(i, base.layers[i].selection.select_point(info.point_id))
        },
    }
}

/// The handles of a segment that can be picked.
fn push_handle_candidates(hide_distance: DVec2, vector: &VectorLayer, segment: Segment, position: DVec2, found: &mut Vec<Candidate>)
    requires
        segment.start < vector@.graph.points.len(),
        segment.end < vector@.graph.points.len(),
    ensures
        final(found)@ == old(found)@ + handle_candidates(hide_distance, vector@, position)(segment),
{
    let bezier: Bezier = vector.vector_data.bezier(segment);
    let start: DVec2 = transform_point(vector.to_viewport, bezier.start);
    let end: DVec2 = transform_point(vector.to_viewport, bezier.end);
    let ghost curve = viewport_bezier(vector@, segment);
    let ghost before = found@;
    if let Some(handle) = bezier.handle_start() {
        let handle: DVec2 = transform_point(vector.to_viewport, handle);
        if shown(hide_distance, handle, start) && (bezier.handle_end().is_some() || shown(hide_distance, handle, end)) {
            found.push(Candidate { id: ManipulatorPointId::PrimaryHandle(segment.id), distance: squared_distance(handle, position) });
        }
    }
    proof {
        assert(found@ == before + primary_candidate(hide_distance, curve, segment.id, position));
    }
    if let Some(handle) = bezier.handle_end() {
        let handle: DVec2 = transform_point(vector.to_viewport, handle);
        if shown(hide_distance, handle, end) {
            found.push(Candidate { id: ManipulatorPointId::EndHandle(segment.id), distance: squared_distance(handle, position) });
        }
    }
    proof {
        assert(found@ == before + (primary_candidate(hide_distance, curve, segment.id, position) + end_candidate(
            hide_distance,
            curve,
            segment.id,
            position,
        )));
    }
}

/// Whether a handle is shown.
fn shown(hide_distance: DVec2, handle: DVec2, anchor: DVec2) -> (result: bool)
    ensures
        result == is_shown(hide_distance, handle, anchor),
{
    let away: DVec2 = minus(handle, anchor);
    less(times(hide_distance, hide_distance), dot(away, away))
}

/// All points of a shape that can be picked.
fn compute_candidates(hide_distance: DVec2, vector: &VectorLayer, position: DVec2) -> (found: Vec<Candidate>)
    requires
        vector@.graph.wf(),
    ensures
        found@ == candidates(hide_distance, vector@, position),
{
    let mut found: Vec<Candidate> = Vec::new();
    let ghost graph = vector@.graph;
    let ghost image = handle_candidates(hide_distance, vector@, position);
    proof {
        lemma_flat_map_take_ends(graph.segments, image);
    }
    let mut i: usize = 0;
    while i < vector.vector_data.segments.len()
        invariant
            i <= vector.vector_data.segments.len(),
            graph == vector@.graph,
            graph.wf(),
            image == handle_candidates(hide_distance, vector@, position),
            found@ == graph.segments.take(i as int).flat_map(image),
        decreases vector.vector_data.segments.len() - i,
    {
        proof {
            lemma_flat_map_take_step(graph.segments, image, i as int);
            assert(graph.segments[i as int].start < graph.points.len());
        }
        push_handle_candidates(hide_distance, vector, vector.vector_data.segments[i], position, &mut found);
        i += 1;
    }
    let ghost handles = found@;
    let ghost anchors = graph.points.map_values(anchor_candidate(vector@, position));
    let mut k: usize = 0;
    while k < vector.vector_data.points.len()
        invariant
            k <= vector.vector_data.points.len(),
            graph == vector@.graph,
            anchors == graph.points.map_values(anchor_candidate(vector@, position)),
            found@ == handles + anchors.take(k as int),
        decreases vector.vector_data.points.len() - k,
    {
        proof {
            assert(anchors.take(k + 1) == anchors.take(k as int).push(anchors[k as int]));
        }
        let point: AnchorPoint = vector.vector_data.points[k];
        let distance: DVec2 = squared_distance(transform_point(vector.to_viewport, point.position), position);
        found.push(Candidate { id: ManipulatorPointId::Anchor(point.id), distance });
        k += 1;
    }
    proof {
        assert(anchors.take(k as int) == anchors);
    }
    found
}

/// Whether the point is among the points.
pub(crate) fn contains_info(infos: &Vec<ManipulatorPointInfo>, info: ManipulatorPointInfo) -> (result: bool)
    ensures
        result == infos@.contains(info),
{
    let mut i: usize = 0;
    while i < infos.len()
        invariant
            i <= infos.len(),
            forall|j: int| 0 <= j < i ==> infos@[j] != info,
        decreases infos.len() - i,
    {
        if infos[i] == info {
            return true;
        }
        i += 1;
    }
    false
}

impl ShapeState {
    /// Find the closest manipulator, manipulator point, and distance so we can select path elements.
    /// Brute force comparison to determine which manipulator (handle or anchor) we want to select
    /// taking O(n) time. The distance is squared, and given in both coordinates.
    pub fn closest_point_in_layer(document: &Document, layer: LayerNodeIdentifier, position: DVec2) -> (found: Option<(ManipulatorPointId, DVec2)>)
        requires
            document@.wf(),
        ensures
            found == (match closest_in_layer(document@, layer, position) {
                Some(candidate) => Some((candidate.id, candidate.distance)),
                None => None,
            }),
    {
        let vector: &VectorLayer = match document.compute_modified_vector(layer) {
            Some(vector) => vector,
            None => return None,
        };
        let list: Vec<Candidate> = compute_candidates(document.hide_handle_distance, vector, position);
        let mut best: Option<Candidate> = None;
        let mut bound: DVec2 = greatest();
        proof {
            assert(list@.take(0) == Seq::<Candidate>::empty());
        }
        let mut i: usize = 0;
        while i < list.len()
            invariant
                i <= list.len(),
                best == closest(list@.take(i as int)),
                bound == (match best {
                    Some(candidate) => candidate.distance,
                    None => largest(),
                }),
            decreases list.len() - i,
        {
            proof {
                assert(list@.take(i + 1).drop_last() == list@.take(i as int));
                assert(list@.take(i + 1).last() == list@[i as int]);
            }
            if at_most(list[i].distance, bound) {
                bound = list[i].distance;
                best = Some(list[i]);
            }
            i += 1;
        }
        proof {
            assert(list@.take(i as int) == list@);
        }
        match best {
            Some(candidate) => Some((candidate.id, candidate.distance)),
            None => None,
        }
    }

    /// Finds a point that is within the selection threshold and returns its layer and identifier. The
    /// `select_threshold` is given in both coordinates.
    pub fn find_nearest_point_indices(&mut self, document: &Document, mouse_position: DVec2, select_threshold: DVec2) -> (found: Option<(LayerNodeIdentifier, ManipulatorPointId)>)
        requires
            document@.wf(),
        ensures
            *final(self) == *old(self),
            found == (match nearest_point(old(self)@, document@, mouse_position, product(select_threshold, select_threshold)) {
                Some(info) => Some((info.layer, info.point_id)),
                None => None,
            }),
    {
        let limit: DVec2 = times(select_threshold, select_threshold);
        let ghost pred = is_near(document@, mouse_position, limit);
        let mut i: usize = 0;
        while i < self.selected_shape_state.entries.len()
            invariant
                i <= self.selected_shape_state.entries.len(),
                *self == *old(self),
                document@.wf(),
                limit == product(select_threshold, select_threshold),
                pred == is_near(document@, mouse_position, limit),
                forall|j: int| 0 <= j < i ==> !pred(#[trigger] self@.layers[j]),
            decreases self.selected_shape_state.entries.len() - i,
        {
            let layer: LayerNodeIdentifier = self.selected_shape_state.entries[i].layer;
            proof {
                assert(self@.layers[i as int].layer == layer);
            }
            if let Some((point, distance)) = Self::closest_point_in_layer(document, layer, mouse_position) {
                if less(distance, limit) {
                    proof {
                        lemma_first_index_is(self@.layers, pred, i as int);
                    }
                    return Some((layer, point));
                }
            }
            i += 1;
        }
        proof {
            lemma_first_index_none(self@.layers, pred);
        }
        None
    }

    /// Finds a point that is within the selection threshold and is among those that are visible. If
    /// the nearest one is not, none is found.
    pub fn find_nearest_visible_point_indices(
        &mut self,
        document: &Document,
        mouse_position: DVec2,
        select_threshold: DVec2,
        visible: &Vec<ManipulatorPointInfo>,
    ) -> (found: Option<(LayerNodeIdentifier, ManipulatorPointId)>)
        requires
            document@.wf(),
        ensures
            *final(self) == *old(self),
            found == (match nearest_visible_point(
                old(self)@,
                document@,
                mouse_position,
                product(select_threshold, select_threshold),
                visible@,
            ) {
                Some(info) => Some((info.layer, info.point_id)),
                None => None,
            }),
    {
        match self.find_nearest_point_indices(document, mouse_position, select_threshold) {
            Some((layer, point_id)) => if contains_info(visible, ManipulatorPointInfo { layer, point_id }) {
                Some((layer, point_id))
            } else {
                None
            },
            None => None,
        }
    }

    /// All points that are selected, each with its layer.
    fn collect_infos(&self) -> (infos: Vec<ManipulatorPointInfo>)
        ensures
            infos@ == selected_infos(self@),
    {
        let mut infos: Vec<ManipulatorPointInfo> = Vec::new();
        let ghost image = infos_in();
        proof {
            lemma_flat_map_take_ends(self@.layers, image);
        }
        let mut i: usize = 0;
        while i < self.selected_shape_state.entries.len()
            invariant
                i <= self.selected_shape_state.entries.len(),
                image == infos_in(),
                infos@ == self@.layers.take(i as int).flat_map(image),
            decreases self.selected_shape_state.entries.len() - i,
        {
            proof {
                lemma_flat_map_take_step(self@.layers, image, i as int);
            }
            let ghost before = infos@;
            let ghost found = image(self@.layers[i as int]);
            let layer: LayerNodeIdentifier = self.selected_shape_state.entries[i].layer;
            let points: &Vec<ManipulatorPointId> = &self.selected_shape_state.entries[i].state.selected_points.items;
            let mut k: usize = 0;
            while k < points.len()
                invariant
                    k <= points.len(),
                    found == points@.map_values(
                        |point: ManipulatorPointId|
                            ManipulatorPointInfo { layer, point_id: point },
                    ),
                    infos@ == before + found.take(k as int),
                decreases points.len() - k,
            {
                proof {
                    assert(found.take(k + 1) == found.take(k as int).push(found[k as int]));
                }
                infos.push(ManipulatorPointInfo { layer, point_id: points[k] });
                k += 1;
            }
            proof {
                assert(found.take(k as int) == found);
            }
            i += 1;
        }
        infos
    }

    /// Selects the point that was clicked.
    fn click_point(&mut self, info: ManipulatorPointInfo, extend_selection: bool)
        requires
            old(self)@.wf(),
        ensures
            final(self)@ == click_point(old(self)@, info, extend_selection),
            final(self)@.wf(),
    {
        if let Some(i) = self.index_of(info.layer) {
            let already_selected: bool = self.selected_shape_state.entries[i].state.is_point_selected(info.point_id);
            let retain_existing_selection: bool = extend_selection || already_selected;
            if !retain_existing_selection {
                self.deselect_all_points();
                self.deselect_all_segments();
            }
            let ghost base = self@;
            proof {
                assert(base.layers[i as int].selection.wf());
            }
            self.selected_shape_state.entries[i].state.select_point(info.point_id);
            proof {
                assert(self@.layers == base.set_selection(
                    i as int,
                    base.layers[i as int].selection.select_point(info.point_id),
                ).layers);
            }
        }
    }

    /// Select/deselect the first point within the selection threshold.
    /// Returns a tuple of the points if found and the offset, or `None` otherwise.
    ///
    /// The `select_threshold` is a vector of that length along the first axis, and the `visible`
    /// points are those that are shown.
    pub fn change_point_selection(
        &mut self,
        document: &Document,
        mouse_position: DVec2,
        select_threshold: DVec2,
        extend_selection: bool,
        visible: &Vec<ManipulatorPointInfo>,
    ) -> (result: Option<Option<SelectedPointsInfo>>)
        requires
            old(self)@.wf(),
            document@.wf(),
        ensures
            final(self)@.wf(),
            match nearest_visible_point(old(self)@, document@, mouse_position, product(select_threshold, select_threshold), visible@) {
                None => result is None && final(self)@ == old(self)@,
                Some(info) => match offset_to(document@, info, mouse_position) {
                    None => result is None && final(self)@ == old(self)@,
                    Some(offset) => {
                        &&& final(self)@ == click_point(old(self)@, info, extend_selection)
                        &&& result matches Some(Some(found))
                        &&& found.offset == offset
                        &&& found.points@ == selected_infos(final(self)@)
                        &&& document@.vector(info.layer) matches Some(vector)
                        &&& found.vector_data@ == vector.graph
                    },
                },
            },
    {
        let (layer, point_id): (LayerNodeIdentifier, ManipulatorPointId) = match self.find_nearest_visible_point_indices(
            document,
            mouse_position,
            select_threshold,
            visible,
        ) {
            Some(found) => found,
            None => return None,
        };
        let vector: &VectorLayer = match document.compute_modified_vector(layer) {
            Some(vector) => vector,
            None => return None,
        };
        let point_position: DVec2 = match point_id.get_position(&vector.vector_data) {
            Some(position) => position,
            None => return None,
        };
        let offset: DVec2 = minus(mouse_position, transform_point(vector.to_viewport, point_position));
        self.click_point(ManipulatorPointInfo { layer, point_id }, extend_selection);
        let points: Vec<ManipulatorPointInfo> = self.collect_infos();
        Some(Some(SelectedPointsInfo { points, offset, vector_data: vector.vector_data.duplicate() }))
    }

    /// Whether the point under the mouse is selected, with what is selected. `None` if there is no
    /// visible point within the selection threshold, or points are not being edited.
    pub fn get_point_selection_state(
        &mut self,
        document: &Document,
        mouse_position: DVec2,
        select_threshold: DVec2,
        visible: &Vec<ManipulatorPointInfo>,
        point_editing_mode: bool,
    ) -> (result: Option<(bool, Option<SelectedPointsInfo>)>)
        requires
            document@.wf(),
        ensures
            *final(self) == *old(self),
            match nearest_visible_point(old(self)@, document@, mouse_position, product(select_threshold, select_threshold), visible@) {
                None => result is None,
                Some(info) => match offset_to(document@, info, mouse_position) {
                    None => result is None,
                    Some(offset) => if !point_editing_mode {
                        result is None
                    } else {
                        &&& result matches Some((already_selected, Some(found)))
                        &&& old(self)@.selection_in(info.layer) matches Some(selection)
                        &&& already_selected == selection.points.contains(info.point_id)
                        &&& found.offset == offset
                        &&& found.points@ == selected_infos(old(self)@)
                        &&& document@.vector(info.layer) matches Some(vector)
                        &&& found.vector_data@ == vector.graph
                    },
                },
            },
    {
        proof {
            lemma_nearest_is_editable(self@, document@, mouse_position, product(select_threshold, select_threshold));
        }
        if !point_editing_mode {
            return None;
        }
        let (layer, point_id): (LayerNodeIdentifier, ManipulatorPointId) = match self.find_nearest_visible_point_indices(
            document,
            mouse_position,
            select_threshold,
            visible,
        ) {
            Some(found) => found,
            None => return None,
        };
        let vector: &VectorLayer = match document.compute_modified_vector(layer) {
            Some(vector) => vector,
            None => return None,
        };
        let point_position: DVec2 = match point_id.get_position(&vector.vector_data) {
            Some(position) => position,
            None => return None,
        };
        let already_selected: bool = match self.index_of(layer) {
            Some(i) => self.selected_shape_state.entries[i].state.is_point_selected(point_id),
            None => return None,
        };
        let offset: DVec2 = minus(mouse_position, transform_point(vector.to_viewport, point_position));
        let points: Vec<ManipulatorPointInfo> = self.collect_infos();
        Some((already_selected, Some(SelectedPointsInfo { points, offset, vector_data: vector.vector_data.duplicate() })))
    }
}

/// The nearest point belongs to a layer that can be edited.
proof fn lemma_nearest_is_editable(state: ShapeSelection, document: DocumentView, position: DVec2, limit: DVec2)
    ensures
        nearest_point(state, document, position, limit) matches Some(info) ==> state.selection_in(info.layer) is Some,
{
    let pred = is_near(document, position, limit);
    lemma_first_index(state.layers, pred);
    if let Some(info) = nearest_point(state, document, position, limit) {
        lemma_first_index(state.layers, entry_is(info.layer));
    }
}

/// The point that a click selects is selected afterwards.
pub proof fn clicked_point_is_selected(state: ShapeSelection, info: ManipulatorPointInfo, extend_selection: bool)
    requires
        state.index_of(info.layer) is Some,
    ensures
        click_point(state, info, extend_selection).layers.len() == state.layers.len(),
        click_point(state, info, extend_selection).layers[state.index_of(info.layer)->0].selection.points.contains(info.point_id),
{
    lemma_first_index(state.layers, entry_is(info.layer));
    let i = state.index_of(info.layer)->0;
    let after = click_point(state, info, extend_selection);
    let base = if extend_selection || state.layers[i].selection.points.contains(info.point_id) {
        state
    } else {
        state.change_all(|e: LayerEntry| e.selection.clear_points()).change_all(|e: LayerEntry| e.selection.clear_segments())
    };
    crate::id_set::inserting_adds_one_item(base.layers[i].selection.points, info.point_id);
}

} // verus!
