//! Taking paths apart and closing them.
use glam::DVec2;
use std::collections::VecDeque;
use vstd::prelude::*;

use crate::deletion::{message, points_taken, push, unlink_handle};
use crate::document::{Document, DocumentView, ShapeLayer};
use crate::fresh_ids::{continues, FreshIds};

use crate::ids::{HandleId, HandleType, LayerNodeIdentifier, ManipulatorPointId, PointId, SegmentId};
use crate::messages::{g1_message, Message, VectorModificationType};
use crate::sequences::{
    lemma_filter_map_take_ends, lemma_filter_map_take_step, lemma_filter_members, lemma_filter_no_duplicates, lemma_filter_take_ends,
    lemma_filter_take_step, lemma_flat_map_take_ends,
    lemma_flat_map_take_step,
};

use crate::shape_state::{changed_until, lemma_changed_ends, lemma_changed_step, LayerEntry, ShapeSelection, ShapeState};
use crate::vector_data::{pair_holds, VectorData, VectorGraph};

verus! {

/// One end of a segment at a point where the path is broken.
pub struct Break {
    pub layer: LayerNodeIdentifier,
    pub graph: VectorGraph,
    pub handle: HandleId,
    pub position: DVec2,
    /// Whether the segment gets a point of its own there. The first one keeps the old point.
    pub apart: bool,
}

/// The number of new points.
pub open spec fn new_points(breaks: Seq<Break>) -> nat
    decreases breaks.len(),
{
    if breaks.len() == 0 {
        0
    } else {
        new_points(breaks.drop_last()) + if breaks.last().apart {
            1nat
        } else {
            0nat
        }
    }
}

/// The requests that let go of one end of a segment, with the identifier of its new point.
pub open spec fn break_end(b: Break, id: PointId) -> Seq<Message> {
    b.graph.unlink(b.layer, pair_holds(b.handle)) + if b.apart {
        seq![
            message(b.layer, VectorModificationType::InsertPoint { id, position: b.position }),
            message(
                b.layer,
                match b.handle.ty {
                    HandleType::Primary => VectorModificationType::SetStartPoint {
                        segment: b.handle.segment,
                        id,
                    },
                    HandleType::End => VectorModificationType::SetEndPoint {
                        segment: b.handle.segment,
                        id,
                    },
                },
            ),
        ]
    } else {
        Seq::empty()
    }
}

/// The requests that break the path, with new identifiers from `ids` on.
pub open spec fn break_ends(breaks: Seq<Break>, ids: Seq<u64>) -> Seq<Message>
    decreases breaks.len(),
{
    if breaks.len() == 0 {
        Seq::empty()
    } else {
        break_ends(breaks.drop_last(), ids) + break_end(
            breaks.last(),
            PointId(ids[new_points(breaks.drop_last()) as int]),
        )
    }
}

/// The requests depend only on the identifiers of the new points.
proof fn lemma_break_ends_prefix(breaks: Seq<Break>, ids: Seq<u64>, more: Seq<u64>)
    requires
        new_points(breaks) <= ids.len(),
        ids.is_prefix_of(more),
    ensures
        break_ends(breaks, ids) == break_ends(breaks, more),
    decreases breaks.len(),
{
    if breaks.len() > 0 {
        lemma_break_ends_prefix(breaks.drop_last(), ids, more);
        let k = new_points(breaks.drop_last()) as int;
        if breaks.last().apart {
            assert(ids[k] == more[k]);
        }
    }
}

/// The ends of segments at the anchor of a selected point.
pub open spec fn breaks_at(layer: LayerNodeIdentifier, graph: VectorGraph) -> spec_fn(ManipulatorPointId) -> Seq<Break> {
    |point: ManipulatorPointId|
        match graph.anchor(point) {
            None => Seq::empty(),
            Some(anchor) => match graph.position_from_id(anchor) {
                None => Seq::empty(),
                Some(position) => Seq::new(
                    graph.all_connected(anchor).len(),
                    |k: int|
                        Break {
                            layer,
                            graph,
                            handle: graph.all_connected(anchor)[k],
                            position,
                            apart: k > 0,
                        },
                ),
            },
        }
}

/// The ends of segments at the selected points of a layer.
pub open spec fn breaks_in(document: DocumentView) -> spec_fn(LayerEntry) -> Seq<Break> {
    |entry: LayerEntry|
        match document.vector(entry.layer) {
            None => Seq::empty(),
            Some(vector) => entry.selection.points.flat_map(breaks_at(entry.layer, vector.graph)),
        }
}

/// Requests to break the path at one point, and takes note of what was broken.
fn break_at_point(vector_data: &VectorData, layer: LayerNodeIdentifier, point: ManipulatorPointId, ids: &mut FreshIds, responses: &mut VecDeque<Message>, done: Ghost<Seq<Break>>, start: Ghost<FreshIds>, sent: Ghost<Seq<Message>>)
    requires
        vector_data@.wf(),
        continues(start@, *old(ids)),
        start@.wf(),
        old(ids).used == start@.used + new_points(done@),
        old(responses)@ == sent@ + break_ends(done@, old(ids).values@.skip(start@.used as int)),
    ensures
        continues(start@, *final(ids)),
        ({
            let now = done@ + breaks_at(layer, vector_data@)(point);
            &&& final(ids).used == start@.used + new_points(now)
            &&& final(responses)@ == sent@ + break_ends(
                now,
                final(ids).values@.skip(start@.used as int),
            )
        }),
{
    let ghost here = breaks_at(layer, vector_data@)(point);
    proof {
        assert(done@ + Seq::<Break>::empty() == done@);
    }
    let anchor: PointId = match point.get_anchor(vector_data) {
        Some(anchor) => anchor,
        None => return,
    };
    let position: DVec2 = match vector_data.position_from_id(anchor) {
        Some(position) => position,
        None => return,
    };
    let handles: Vec<HandleId> = vector_data.all_connected(anchor);
    let mut k: usize = 0;
    proof {
        assert(done@ + here.take(0) == done@);
    }
    while k < handles.len()
        invariant
            k <= handles.len(),
            vector_data@.wf(),
            start@.wf(),
            handles@ == vector_data@.all_connected(anchor),
            vector_data@.anchor(point) == Some(anchor),
            vector_data@.position_from_id(anchor) == Some(position),
            here == breaks_at(layer, vector_data@)(point),
            here.len() == handles.len(),
            continues(start@, *ids),
            ids.used == start@.used + new_points(done@ + here.take(k as int)),
            responses@ == sent@ + break_ends(
                done@ + here.take(k as int),
                ids.values@.skip(start@.used as int),
            ),
        decreases handles.len() - k,
    {
        let ghost before = done@ + here.take(k as int);
        let ghost after = done@ + here.take(k + 1);
        let ghost old_ids = *ids;
        let handle: HandleId = handles[k];
        proof {
            assert(after.drop_last() == before);
            assert(after.last() == here[k as int]);
        }
        let ghost was = responses@;
        unlink_handle(vector_data, layer, handle, responses);
        if k > 0 {
            let id: PointId = PointId(ids.generate());
            push(responses, layer, VectorModificationType::InsertPoint { id, position });
            let modification_type: VectorModificationType = match handle.ty {
                HandleType::Primary => VectorModificationType::SetStartPoint { segment: handle.segment, id },
                HandleType::End => VectorModificationType::SetEndPoint { segment: handle.segment, id },
            };
            push(responses, layer, modification_type);
            proof {
                let old_tail = old_ids.values@.skip(start@.used as int);
                let new_tail = ids.values@.skip(start@.used as int);
                assert(old_tail.is_prefix_of(new_tail));
                lemma_break_ends_prefix(before, old_tail, new_tail);
                assert(id.0 == new_tail[new_points(before) as int]);
                assert(responses@ == was + break_end(here[k as int], id));
            }
        } else {
            proof {
                let tail = ids.values@.skip(start@.used as int);
                assert(responses@ == was + break_end(here[k as int], PointId(tail[new_points(before) as int])));
            }
        }
        proof {
            assert(sent@ + break_ends(after, ids.values@.skip(start@.used as int)) == responses@);
        }
        k += 1;
    }
    proof {
        assert(here.take(k as int) == here);
    }
}

impl ShapeState {
    /// Breaks the paths at the selected points: each segment there gets an end of its own, but for
    /// the first, which keeps the old point.
    pub fn break_path_at_selected_point(&self, document: &Document, ids: &mut FreshIds, responses: &mut VecDeque<Message>)
        requires
            document@.wf(),
            old(ids).wf(),
        ensures
            continues(*old(ids), *final(ids)),
            final(ids).used == old(ids).used + new_points(self@.layers.flat_map(breaks_in(document@))),
            final(responses)@ == old(responses)@ + break_ends(
                self@.layers.flat_map(breaks_in(document@)),
                final(ids).values@.skip(old(ids).used as int),
            ),
    {
        let ghost image = breaks_in(document@);
        let ghost start = *ids;
        let ghost sent = responses@;
        proof {
            lemma_flat_map_take_ends(self@.layers, image);
        }
        let mut i: usize = 0;
        while i < self.selected_shape_state.entries.len()
            invariant
                i <= self.selected_shape_state.entries.len(),
                document@.wf(),
                start.wf(),
                image == breaks_in(document@),
                continues(start, *ids),
                ids.used == start.used + new_points(self@.layers.take(i as int).flat_map(image)),
                responses@ == sent + break_ends(
                    self@.layers.take(i as int).flat_map(image),
                    ids.values@.skip(start.used as int),
                ),
            decreases self.selected_shape_state.entries.len() - i,
        {
            let ghost done = self@.layers.take(i as int).flat_map(image);
            proof {
                lemma_flat_map_take_step(self@.layers, image, i as int);
                assert(done + Seq::<Break>::empty() == done);
            }
            let layer: LayerNodeIdentifier = self.selected_shape_state.entries[i].layer;
            match document.compute_modified_vector(layer) {
                Some(vector) => {
                    let points: &Vec<ManipulatorPointId> = &self.selected_shape_state.entries[i].state.selected_points.items;
                    let ghost inner = breaks_at(layer, vector.vector_data@);
                    proof {
                        lemma_flat_map_take_ends(points@, inner);
                    }
                    let mut k: usize = 0;
                    while k < points.len()
                        invariant
                            k <= points.len(),
                            vector.vector_data@.wf(),
                            start.wf(),
                            inner == breaks_at(layer, vector.vector_data@),
                            continues(start, *ids),
                            ids.used == start.used + new_points(
                                done + points@.take(k as int).flat_map(inner),
                            ),
                            responses@ == sent + break_ends(
                                done + points@.take(k as int).flat_map(inner),
                                ids.values@.skip(start.used as int),
                            ),
                        decreases points.len() - k,
                    {
                        proof {
                            lemma_flat_map_take_step(points@, inner, k as int);
                            assert((done + points@.take(k as int).flat_map(inner)) + inner(points@[k as int])
                                == done + points@.take(k + 1).flat_map(inner));
                        }
                        break_at_point(
                            &vector.vector_data,
                            layer,
                            points[k],
                            ids,
                            responses,
                            Ghost(done + points@.take(k as int).flat_map(inner)),
                            Ghost(start),
                            Ghost(sent),
                        );
                        k += 1;
                    }
                },
                None => {},
            }
            i += 1;
        }
    }
}

/// The request that removes the segment of a handle.
pub open spec fn segment_removal(layer: LayerNodeIdentifier) -> spec_fn(HandleId) -> Message {
    |handle: HandleId| message(layer, VectorModificationType::RemoveSegment { id: handle.segment })
}

/// The requests that remove the anchor of a selected point and the segments at it.
pub open spec fn anchor_removal(layer: LayerNodeIdentifier, graph: VectorGraph) -> spec_fn(ManipulatorPointId) -> Seq<Message> {
    |point: ManipulatorPointId|
        match graph.anchor(point) {
            None => Seq::empty(),
            Some(anchor) => seq![message(layer, VectorModificationType::RemovePoint { id: anchor })]
                + graph.all_connected(anchor).map_values(segment_removal(layer)),
        }
}

/// The requests that remove the anchors of the selected points of a layer.
pub open spec fn anchor_removals(document: DocumentView) -> spec_fn(LayerEntry) -> Seq<Message> {
    |entry: LayerEntry|
        match document.vector(entry.layer) {
            None => Seq::empty(),
            Some(vector) => entry.selection.points.flat_map(anchor_removal(entry.layer, vector.graph)),
        }
}

/// Requests to remove the anchor of each point and the segments at it.
fn remove_anchors(vector_data: &VectorData, layer: LayerNodeIdentifier, points: &Vec<ManipulatorPointId>, responses: &mut VecDeque<Message>)
    requires
        vector_data@.wf(),
    ensures
        final(responses)@ == old(responses)@ + points@.flat_map(anchor_removal(layer, vector_data@)),
{
    let ghost image = anchor_removal(layer, vector_data@);
    proof {
        lemma_flat_map_take_ends(points@, image);
    }
    let mut i: usize = 0;
    while i < points.len()
        invariant
            i <= points.len(),
            vector_data@.wf(),
            image == anchor_removal(layer, vector_data@),
            responses@ == old(responses)@ + points@.take(i as int).flat_map(image),
        decreases points.len() - i,
    {
        proof {
            lemma_flat_map_take_step(points@, image, i as int);
        }
        let ghost sent = responses@;
        if let Some(anchor) = points[i].get_anchor(vector_data) {
            push(responses, layer, VectorModificationType::RemovePoint { id: anchor });
            let ghost first = responses@;
            let handles: Vec<HandleId> = vector_data.all_connected(anchor);
            let ghost removals = handles@.map_values(segment_removal(layer));
            let mut k: usize = 0;
            while k < handles.len()
                invariant
                    k <= handles.len(),
                    removals == handles@.map_values(segment_removal(layer)),
                    responses@ == first + removals.take(k as int),
                decreases handles.len() - k,
            {
                proof {
                    assert(removals.take(k + 1) == removals.take(k as int).push(removals[k as int]));
                }
                push(responses, layer, VectorModificationType::RemoveSegment { id: handles[k].segment });
                k += 1;
            }
            proof {
                assert(removals.take(k as int) == removals);
                assert(responses@ == sent + image(points@[i as int]));
            }
        }
        i += 1;
    }
}

/// The request to stop keeping the handle in line.
pub open spec fn release(layer: LayerNodeIdentifier, graph: VectorGraph) -> spec_fn(HandleId) -> Option<Message> {
    |handle: HandleId|
        match graph.colinear_pair(handle) {
            Some(pair) => Some(g1_message(layer, pair, false)),
            None => None,
        }
}

/// The requests to stop keeping in line the handle, or the handles at the anchor.
pub open spec fn releases_at(layer: LayerNodeIdentifier, graph: VectorGraph) -> spec_fn(ManipulatorPointId) -> Seq<Message> {
    |point: ManipulatorPointId|
        match point.as_handle() {
            None => graph.all_connected(point->Anchor_0).filter_map(release(layer, graph)),
            Some(handle) => seq![handle].filter_map(release(layer, graph)),
        }
}

/// The requests to stop keeping the handles in line at the selected points of a layer.
pub open spec fn releases_in(document: DocumentView) -> spec_fn(LayerEntry) -> Seq<Message> {
    |entry: LayerEntry|
        match document.vector(entry.layer) {
            None => Seq::empty(),
            Some(vector) => entry.selection.points.flat_map(releases_at(entry.layer, vector.graph)),
        }
}

/// Requests to stop keeping the handles in line.
fn release_handles(vector_data: &VectorData, layer: LayerNodeIdentifier, handles: &Vec<HandleId>, responses: &mut VecDeque<Message>)
    ensures
        final(responses)@ == old(responses)@ + handles@.filter_map(release(layer, vector_data@)),
{
    let ghost image = release(layer, vector_data@);
    proof {
        lemma_filter_map_take_ends(handles@, image);
    }
    let mut i: usize = 0;
    while i < handles.len()
        invariant
            i <= handles.len(),
            image == release(layer, vector_data@),
            responses@ == old(responses)@ + handles@.take(i as int).filter_map(image),
        decreases handles.len() - i,
    {
        proof {
            lemma_filter_map_take_step(handles@, image, i as int);
        }
        if let Some(pair) = vector_data.colinear_pair(handles[i]) {
            push(responses, layer, VectorModificationType::SetG1Continuous { handles: pair, enabled: false });
        }
        i += 1;
    }
}

impl ShapeState {
    /// Deletes the anchors of the selected points and the segments at them.
    pub fn delete_point_and_break_path(&mut self, document: &Document, responses: &mut VecDeque<Message>)
        requires
            old(self)@.wf(),
            document@.wf(),
        ensures
            final(responses)@ == old(responses)@ + old(self)@.layers.flat_map(anchor_removals(document@)),
            final(self)@ == old(self)@.change_all(points_taken(document@)),
            final(self)@.wf(),
    {
        let ghost change = points_taken(document@);
        let ghost image = anchor_removals(document@);
        let ghost before = self@;
        proof {
            lemma_changed_ends(before.layers, change);
            lemma_flat_map_take_ends(before.layers, image);
        }
        let mut i: usize = 0;
        while i < self.selected_shape_state.entries.len()
            invariant
                i <= self.selected_shape_state.entries.len(),
                change == points_taken(document@),
                image == anchor_removals(document@),
                document@.wf(),
                before.wf(),
                self@.wf(),
                self.selected_shape_state.entries.len() == before.layers.len(),
                self@ == (ShapeSelection {
                    layers: changed_until(before.layers, change, i as int),
                    ..before
                }),
                responses@ == old(responses)@ + before.layers.take(i as int).flat_map(image),
            decreases self.selected_shape_state.entries.len() - i,
        {
            proof {
                lemma_changed_step(before.layers, change, i as int);
                lemma_flat_map_take_step(before.layers, image, i as int);
                assert(self@.layers[i as int].selection.wf());
            }
            let ghost layers = self@.layers;
            let layer: LayerNodeIdentifier = self.selected_shape_state.entries[i].layer;
            match document.compute_modified_vector(layer) {
                Some(vector) => {
                    remove_anchors(
                        &vector.vector_data,
                        layer,
                        &self.selected_shape_state.entries[i].state.selected_points.items,
                        responses,
                    );
                    self.selected_shape_state.entries[i].state.clear_points();
                },
                None => {},
            }
            proof {
                assert(self@.layers == layers.update(i as int, self@.layers[i as int]));
            }
            i += 1;
        }
        proof {
            lemma_changed_ends(before.layers, change);
            lemma_flat_map_take_ends(before.layers, image);
        }
    }

    /// Stops keeping the handles in line at the selected points.
    pub fn disable_colinear_handles_state_on_selected(&self, document: &Document, responses: &mut VecDeque<Message>)
        requires
            document@.wf(),
        ensures
            final(responses)@ == old(responses)@ + self@.layers.flat_map(releases_in(document@)),
    {
        let ghost image = releases_in(document@);
        proof {
            lemma_flat_map_take_ends(self@.layers, image);
        }
        let mut i: usize = 0;
        while i < self.selected_shape_state.entries.len()
            invariant
                i <= self.selected_shape_state.entries.len(),
                document@.wf(),
                image == releases_in(document@),
                responses@ == old(responses)@ + self@.layers.take(i as int).flat_map(image),
            decreases self.selected_shape_state.entries.len() - i,
        {
            proof {
                lemma_flat_map_take_step(self@.layers, image, i as int);
            }
            let ghost sent = responses@;
            let layer: LayerNodeIdentifier = self.selected_shape_state.entries[i].layer;
            match document.compute_modified_vector(layer) {
                Some(vector) => {
                    let points: &Vec<ManipulatorPointId> = &self.selected_shape_state.entries[i].state.selected_points.items;
                    let ghost inner = releases_at(layer, vector.vector_data@);
                    proof {
                        lemma_flat_map_take_ends(points@, inner);
                    }
                    let mut k: usize = 0;
                    while k < points.len()
                        invariant
                            k <= points.len(),
                            inner == releases_at(layer, vector.vector_data@),
                            responses@ == sent + points@.take(k as int).flat_map(inner),
                        decreases points.len() - k,
                    {
                        proof {
                            lemma_flat_map_take_step(points@, inner, k as int);
                        }
                        match points[k] {
                            ManipulatorPointId::Anchor(anchor) => {
                                let handles: Vec<HandleId> = vector.vector_data.all_connected(anchor);
                                release_handles(&vector.vector_data, layer, &handles, responses);
                            },
                            ManipulatorPointId::PrimaryHandle(segment) => {
                                let handles: Vec<HandleId> = vec![HandleId::primary(segment)];
                                proof {
                                    assert(handles@ == seq![HandleId::primary(segment)]);
                                }
                                release_handles(&vector.vector_data, layer, &handles, responses);
                            },
                            ManipulatorPointId::EndHandle(segment) => {
                                let handles: Vec<HandleId> = vec![HandleId::end(segment)];
                                proof {
                                    assert(handles@ == seq![HandleId::end(segment)]);
                                }
                                release_handles(&vector.vector_data, layer, &handles, responses);
                            },
                        }
                        k += 1;
                    }
                },
                None => {},
            }
            i += 1;
        }
    }
}

/// A path to be closed: the layer of its shape and its two ends.
#[derive(Clone, Copy, Debug)]
pub struct OpenPath {
    pub layer: LayerNodeIdentifier,
    pub start: PointId,
    pub end: PointId,
}

/// The request that closes the path by a straight segment.
pub open spec fn closing_segment(path: OpenPath, id: u64) -> Message {
    message(
        path.layer,
        VectorModificationType::InsertSegment {
            id: SegmentId(id),
            points: (path.end, path.start),
            handles: (None, None),
        },
    )
}

/// The selected anchors of a layer with a shape.
pub open spec fn anchors_in(document: DocumentView) -> spec_fn(LayerEntry) -> Seq<(LayerNodeIdentifier, PointId)> {
    |entry: LayerEntry|
        match document.vector(entry.layer) {
            None => Seq::empty(),
            Some(_) => entry.selection.points.filter_map(anchor_in(entry.layer)),
        }
}

pub open spec fn anchor_in(layer: LayerNodeIdentifier) -> spec_fn(ManipulatorPointId) -> Option<(LayerNodeIdentifier, PointId)> {
    |point: ManipulatorPointId|
        match point.as_anchor() {
            Some(anchor) => Some((layer, anchor)),
            None => None,
        }
}

/// Whether a point is at the end of a path: one segment is at it.
pub open spec fn is_endpoint(graph: VectorGraph) -> spec_fn(PointId) -> bool {
    |point: PointId| graph.all_connected(point).len() == 1
}

/// The path of a layer that has exactly two ends.
pub open spec fn open_path_in(document: DocumentView) -> spec_fn(LayerEntry) -> Option<OpenPath> {
    |entry: LayerEntry|
        match document.vector(entry.layer) {
            None => None,
            Some(vector) => {
                let ends = vector.graph.point_ids().filter(is_endpoint(vector.graph));
                if ends.len() == 2 {
                    Some(OpenPath { layer: entry.layer, start: ends[0], end: ends[1] })
                } else {
                    None
                }
            },
        }
}

/// Whether two selected points can be joined: both are ends of paths, and they are not the same.
pub open spec fn can_join(document: DocumentView, first: (LayerNodeIdentifier, PointId), second: (LayerNodeIdentifier, PointId)) -> bool {
    match (document.vector(first.0), document.vector(second.0)) {
        (Some(vector1), Some(vector2)) => {
            &&& is_endpoint(vector1.graph)(first.1)
            &&& is_endpoint(vector2.graph)(second.1)
            &&& first != second
        },
        _ => false,
    }
}

/// The requests that join two selected points. Two layers become one first.
pub open spec fn join_points(document: DocumentView, first: (LayerNodeIdentifier, PointId), second: (LayerNodeIdentifier, PointId), id: u64) -> Seq<Message> {
    let path = OpenPath { layer: first.0, start: first.1, end: second.1 };
    if !can_join(document, first, second) {
        Seq::empty()
    } else if first.0 == second.0 {
        seq![closing_segment(path, id)]
    } else {
        seq![
            Message::MergeLayers { first_layer: first.0, second_layer: second.0 },
            closing_segment(path, id),
        ]
    }
}

/// The requests that close the paths, each by a segment with the identifier at its place.
pub open spec fn close_paths(paths: Seq<OpenPath>, ids: Seq<u64>) -> Seq<Message> {
    Seq::new(paths.len(), |i: int| closing_segment(paths[i], ids[i]))
}

/// The requests that close the selected path: two selected anchors are joined; otherwise the path
/// of each layer is closed that has exactly two ends.
pub open spec fn close_selected(document: DocumentView, layers: Seq<LayerEntry>, ids: Seq<u64>) -> Seq<Message> {
    let anchors = layers.flat_map(anchors_in(document));
    if anchors.len() == 2 {
        join_points(document, anchors[0], anchors[1], ids[0])
    } else {
        close_paths(layers.filter_map(open_path_in(document)), ids)
    }
}

/// The number of segments that closing the selected path adds.
pub open spec fn closing_count(document: DocumentView, layers: Seq<LayerEntry>) -> nat {
    let anchors = layers.flat_map(anchors_in(document));
    if anchors.len() == 2 {
        if can_join(document, anchors[0], anchors[1]) {
            1
        } else {
            0
        }
    } else {
        layers.filter_map(open_path_in(document)).len()
    }
}

/// The ends of the paths of the shape.
fn endpoints(vector_data: &VectorData) -> (ends: Vec<PointId>)
    ensures
        ends@ == vector_data@.point_ids().filter(is_endpoint(vector_data@)),
{
    let ghost point_ids = vector_data@.point_ids();
    let ghost pred = is_endpoint(vector_data@);
    let mut ends: Vec<PointId> = Vec::new();
    proof {
        lemma_filter_take_ends(point_ids, pred);
    }
    let mut i: usize = 0;
    while i < vector_data.points.len()
        invariant
            i <= vector_data.points.len(),
            point_ids == vector_data@.point_ids(),
            pred == is_endpoint(vector_data@),
            ends@ == point_ids.take(i as int).filter(pred),
        decreases vector_data.points.len() - i,
    {
        proof {
            lemma_filter_take_step(point_ids, pred, i as int);
        }
        let id: PointId = vector_data.points[i].id;
        if vector_data.all_connected(id).len() == 1 {
            ends.push(id);
        }
        i += 1;
    }
    ends
}

impl ShapeState {
    /// The selected anchors of the layers that have a shape.
    fn selected_anchors(&self, document: &Document) -> (anchors: Vec<(LayerNodeIdentifier, PointId)>)
        ensures
            anchors@ == self@.layers.flat_map(anchors_in(document@)),
    {
        let mut anchors: Vec<(LayerNodeIdentifier, PointId)> = Vec::new();
        let ghost image = anchors_in(document@);
        proof {
            lemma_flat_map_take_ends(self@.layers, image);
        }
        let mut i: usize = 0;
        while i < self.selected_shape_state.entries.len()
            invariant
                i <= self.selected_shape_state.entries.len(),
                image == anchors_in(document@),
                anchors@ == self@.layers.take(i as int).flat_map(image),
            decreases self.selected_shape_state.entries.len() - i,
        {
            proof {
                lemma_flat_map_take_step(self@.layers, image, i as int);
            }
            let ghost first = anchors@;
            let layer: LayerNodeIdentifier = self.selected_shape_state.entries[i].layer;
            if document.compute_modified_vector(layer).is_some() {
                let points: &Vec<ManipulatorPointId> = &self.selected_shape_state.entries[i].state.selected_points.items;
                let ghost inner = anchor_in(layer);
                proof {
                    lemma_filter_map_take_ends(points@, inner);
                }
                let mut k: usize = 0;
                while k < points.len()
                    invariant
                        k <= points.len(),
                        inner == anchor_in(layer),
                        anchors@ == first + points@.take(k as int).filter_map(inner),
                    decreases points.len() - k,
                {
                    proof {
                        lemma_filter_map_take_step(points@, inner, k as int);
                    }
                    if let Some(anchor) = points[k].as_anchor() {
                        anchors.push((layer, anchor));
                    }
                    k += 1;
                }
            }
            i += 1;
        }
        anchors
    }

    /// Closes the selected path. If exactly two anchors are selected (regardless of layer), they
    /// are joined. Otherwise the path of each layer is closed that has exactly two ends.
    pub fn close_selected_path(&self, document: &Document, ids: &mut FreshIds, responses: &mut VecDeque<Message>)
        requires
            old(ids).wf(),
        ensures
            continues(*old(ids), *final(ids)),
            final(ids).used == old(ids).used + closing_count(document@, self@.layers),
            final(responses)@ == old(responses)@ + close_selected(
                document@,
                self@.layers,
                final(ids).values@.skip(old(ids).used as int),
            ),
    {
        let ghost start = *ids;
        let anchors: Vec<(LayerNodeIdentifier, PointId)> = self.selected_anchors(document);
        if anchors.len() == 2 {
            let (layer1, start_point): (LayerNodeIdentifier, PointId) = anchors[0];
            let (layer2, end_point): (LayerNodeIdentifier, PointId) = anchors[1];
            let vector1: &VectorData = match document.compute_modified_vector(layer1) {
                Some(vector) => &vector.vector_data,
                None => return,
            };
            let vector2: &VectorData = match document.compute_modified_vector(layer2) {
                Some(vector) => &vector.vector_data,
                None => return,
            };
            if vector1.all_connected(start_point).len() != 1 || vector2.all_connected(end_point).len() != 1 {
                return;
            }
            if layer1 == layer2 && start_point == end_point {
                return;
            }
            if layer1 != layer2 {
                responses.push_back(Message::MergeLayers { first_layer: layer1, second_layer: layer2 });
            }
            let id: SegmentId = SegmentId(ids.generate());
            push(
                responses,
                layer1,
                VectorModificationType::InsertSegment {
                    id,
                    points: (end_point, start_point),
                    handles: (None, None),
                },
            );
            proof {
                assert(id.0 == ids.values@.skip(start.used as int)[0]);
                assert(can_join(document@, anchors@[0], anchors@[1]));
                assert(responses@ == old(responses)@ + join_points(document@, anchors@[0], anchors@[1], id.0));
            }
            return;
        }
        let ghost image = open_path_in(document@);
        let ghost sent = responses@;
        proof {
            lemma_filter_map_take_ends(self@.layers, image);
            assert(close_paths(Seq::empty(), ids.values@.skip(start.used as int)) == Seq::<Message>::empty());
        }
        let mut i: usize = 0;
        while i < self.selected_shape_state.entries.len()
            invariant
                i <= self.selected_shape_state.entries.len(),
                image == open_path_in(document@),
                start.wf(),
                continues(start, *ids),
                ids.used == start.used + self@.layers.take(i as int).filter_map(image).len(),
                responses@ == sent + close_paths(
                    self@.layers.take(i as int).filter_map(image),
                    ids.values@.skip(start.used as int),
                ),
            decreases self.selected_shape_state.entries.len() - i,
        {
            let ghost paths = self@.layers.take(i as int).filter_map(image);
            let ghost tail = ids.values@.skip(start.used as int);
            proof {
                lemma_filter_map_take_step(self@.layers, image, i as int);
            }
            let layer: LayerNodeIdentifier = self.selected_shape_state.entries[i].layer;
            match document.compute_modified_vector(layer) {
                Some(vector) => {
                    let ends: Vec<PointId> = endpoints(&vector.vector_data);
                    if ends.len() == 2 {
                        let id: SegmentId = SegmentId(ids.generate());
                        push(
                            responses,
                            layer,
                            VectorModificationType::InsertSegment {
                                id,
                                points: (ends[1], ends[0]),
                                handles: (None, None),
                            },
                        );
                        proof {
                            let new_tail = ids.values@.skip(start.used as int);
                            let path = OpenPath { layer, start: ends@[0], end: ends@[1] };
                            assert(tail.is_prefix_of(new_tail));
                            assert forall|k: int| 0 <= k < paths.len() implies tail[k] == new_tail[k] by {}
                            assert(id.0 == new_tail[paths.len() as int]);
                            assert(close_paths(paths.push(path), new_tail) == close_paths(paths, tail).push(
                                closing_segment(path, id.0),
                            ));
                        }
                    }
                },
                None => {},
            }
            i += 1;
        }
    }
}

/// A path that is to be closed has just the two ends that the new segment joins: each has one segment, and no other point of
/// the layer has just one.
pub proof fn closing_joins_the_only_ends(document: DocumentView, entry: LayerEntry, path: OpenPath, vector: ShapeLayer, id: u64, point: PointId)
    requires
        open_path_in(document)(entry) == Some(path),
        document.vector(entry.layer) == Some(vector),
        vector.graph.point_ids().contains(point),
    ensures
        vector.graph.all_connected(path.start).len() == 1,
        vector.graph.all_connected(path.end).len() == 1,
        vector.graph.all_connected(point).len() == 1 ==> point == path.start || point == path.end,
        vector.graph.point_ids().no_duplicates() ==> path.start != path.end,
        closing_segment(path, id) == (Message::Vector {
            layer: entry.layer,
            modification_type: VectorModificationType::InsertSegment {
                id: SegmentId(id),
                points: (path.end, path.start),
                handles: (None, None),
            },
        }),
{
    let ids = vector.graph.point_ids();
    let pred = is_endpoint(vector.graph);
    let ends = ids.filter(pred);
    lemma_filter_members(ids, pred);
    assert(ends.contains(ends[0]) && ends.contains(ends[1]));
    if vector.graph.all_connected(point).len() == 1 {
        assert(pred(point));
        assert(ends.contains(point));
    }
    if ids.no_duplicates() {
        lemma_filter_no_duplicates(ids, pred);
    }
}

} // verus!
