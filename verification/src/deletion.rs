//! Deleting what is selected, and joining what the deletion left apart.
use glam::DVec2;
use std::collections::VecDeque;
use vstd::prelude::*;

use crate::document::{Document, DocumentView};
use crate::geometry::{difference, minus, splat, zero};
use crate::id_set::IdSet;
use crate::ids::{HandleId, LayerNodeIdentifier, ManipulatorPointId, PointId, SegmentId};
use crate::messages::{g1_message, handle_message, Message, VectorModificationType};
use crate::sequences::{
    first_index, lemma_filter_map_take_ends, lemma_filter_map_take_step, lemma_first_index_is, lemma_first_index_none, lemma_flat_map_take_ends,
    lemma_flat_map_take_step,
};
use crate::selection::LayerSelection;
use crate::shape_state::{changed_until, lemma_changed_ends, lemma_changed_step, LayerEntry, ShapeSelection, ShapeState};
use crate::vector_data::{pair_holds, Segment, VectorData, VectorGraph};

verus! {

/// Whether one of the handles of the pair belongs to the segment.
pub open spec fn pair_touches(segment: SegmentId) -> spec_fn((HandleId, HandleId)) -> bool {
    |pair: (HandleId, HandleId)| pair.0.segment == segment || pair.1.segment == segment
}

/// The request to stop keeping a pair in line, if the pair passes.
pub open spec fn unlinking(layer: LayerNodeIdentifier, pred: spec_fn((HandleId, HandleId)) -> bool) -> spec_fn((HandleId, HandleId)) -> Option<Message> {
    |pair: (HandleId, HandleId)|
        if pred(pair) {
            Some(g1_message(layer, pair, false))
        } else {
            None
        }
}

/// A handle of a deleted segment and the point at the far end of that segment.
#[derive(Clone, Copy, Debug)]
pub struct Link {
    pub handle: HandleId,
    pub point: PointId,
}

pub open spec fn message(layer: LayerNodeIdentifier, modification_type: VectorModificationType) -> Message {
    Message::Vector { layer, modification_type }
}

impl VectorGraph {
    /// The requests to stop keeping the pairs in line that pass.
    pub open spec fn unlink(self, layer: LayerNodeIdentifier, pred: spec_fn((HandleId, HandleId)) -> bool) -> Seq<Message> {
        self.colinear.filter_map(unlinking(layer, pred))
    }

    /// The requests that remove a segment and what is kept in line with it.
    pub open spec fn remove_segment(self, layer: LayerNodeIdentifier, segment: SegmentId) -> Seq<Message> {
        seq![message(layer, VectorModificationType::RemoveSegment { id: segment })] + self.unlink(
            layer,
            pair_touches(segment),
        )
    }

    /// The requests that remove the segment of a handle.
    pub open spec fn remove_segment_of(self, layer: LayerNodeIdentifier) -> spec_fn(HandleId) -> Seq<Message> {
        |handle: HandleId| self.remove_segment(layer, handle.segment)
    }

    /// The requests that remove an anchor and the segments at it.
    pub open spec fn dissolve_anchor(self, layer: LayerNodeIdentifier, anchor: PointId) -> Seq<Message> {
        seq![message(layer, VectorModificationType::RemovePoint { id: anchor })]
            + self.all_connected(anchor).flat_map(self.remove_segment_of(layer))
    }

    /// The two points that the anchor joined, each with the handle at the anchor of the segment
    /// that led there.
    pub open spec fn links(self, anchor: PointId) -> Option<(Link, Link)> {
        match self.handle_pair(ManipulatorPointId::Anchor(anchor)) {
            None => None,
            Some(pair) => match (
                self.anchor(pair.1.opposite().to_manipulator_point()),
                self.anchor(pair.0.opposite().to_manipulator_point()),
            ) {
                (Some(start), Some(end)) => Some(
                    (Link { handle: pair.1, point: start }, Link { handle: pair.0, point: end }),
                ),
                _ => None,
            },
        }
    }

    /// The requests that remove a segment, and those of its ends at which nothing else is.
    pub open spec fn dissolve_segment(self, layer: LayerNodeIdentifier, segment: SegmentId, points: (PointId, PointId)) -> Seq<Message> {
        self.remove_segment(layer, segment) + self.remove_terminal(layer, points.0)
            + self.remove_terminal(layer, points.1)
    }

    /// The request that removes a point at which one segment is.
    pub open spec fn remove_terminal(self, layer: LayerNodeIdentifier, point: PointId) -> Seq<Message> {
        if self.all_connected(point).len() == 1 {
            seq![message(layer, VectorModificationType::RemovePoint { id: point })]
        } else {
            Seq::empty()
        }
    }
}

/// Pushes a change of the layer's shape.
pub(crate) fn push(responses: &mut VecDeque<Message>, layer: LayerNodeIdentifier, modification_type: VectorModificationType)
    ensures
        final(responses)@ == old(responses)@.push(message(layer, modification_type)),
{
    responses.push_back(Message::Vector { layer, modification_type });
}

/// Requests to stop keeping in line the pairs that hold the handle.
pub(crate) fn unlink_handle(vector_data: &VectorData, layer: LayerNodeIdentifier, handle: HandleId, responses: &mut VecDeque<Message>)
    ensures
        final(responses)@ == old(responses)@ + vector_data@.unlink(layer, pair_holds(handle)),
{
    let ghost image = unlinking(layer, pair_holds(handle));
    proof {
        lemma_filter_map_take_ends(vector_data@.colinear, image);
    }
    let mut i: usize = 0;
    while i < vector_data.colinear_manipulators.len()
        invariant
            i <= vector_data.colinear_manipulators.len(),
            image == unlinking(layer, pair_holds(handle)),
            responses@ == old(responses)@ + vector_data@.colinear.take(i as int).filter_map(image),
        decreases vector_data.colinear_manipulators.len() - i,
    {
        proof {
            lemma_filter_map_take_step(vector_data@.colinear, image, i as int);
        }
        let handles: (HandleId, HandleId) = vector_data.colinear_manipulators[i];
        if handles.0 == handle || handles.1 == handle {
            push(responses, layer, VectorModificationType::SetG1Continuous { handles, enabled: false });
        }
        i += 1;
    }
}

/// Requests to remove the segment and what is kept in line with it.
pub(crate) fn remove_segment(vector_data: &VectorData, layer: LayerNodeIdentifier, segment: SegmentId, responses: &mut VecDeque<Message>)
    ensures
        final(responses)@ == old(responses)@ + vector_data@.remove_segment(layer, segment),
{
    push(responses, layer, VectorModificationType::RemoveSegment { id: segment });
    let ghost first = responses@;
    let ghost image = unlinking(layer, pair_touches(segment));
    proof {
        lemma_filter_map_take_ends(vector_data@.colinear, image);
    }
    let mut i: usize = 0;
    while i < vector_data.colinear_manipulators.len()
        invariant
            i <= vector_data.colinear_manipulators.len(),
            image == unlinking(layer, pair_touches(segment)),
            responses@ == first + vector_data@.colinear.take(i as int).filter_map(image),
        decreases vector_data.colinear_manipulators.len() - i,
    {
        proof {
            lemma_filter_map_take_step(vector_data@.colinear, image, i as int);
        }
        let handles: (HandleId, HandleId) = vector_data.colinear_manipulators[i];
        if handles.0.segment == segment || handles.1.segment == segment {
            push(responses, layer, VectorModificationType::SetG1Continuous { handles, enabled: false });
        }
        i += 1;
    }
    proof {
        assert(responses@ == old(responses)@ + vector_data@.remove_segment(layer, segment));
    }
}

impl ShapeState {
    /// Requests to remove the segment, and those of its ends at which nothing else is.
    pub fn dissolve_segment(&self, responses: &mut VecDeque<Message>, layer: LayerNodeIdentifier, vector_data: &VectorData, segment: SegmentId, points: (PointId, PointId))
        ensures
            final(responses)@ == old(responses)@ + vector_data@.dissolve_segment(layer, segment, points),
    {
        let first_terminal: bool = vector_data.all_connected(points.0).len() == 1;
        let second_terminal: bool = vector_data.all_connected(points.1).len() == 1;
        remove_segment(vector_data, layer, segment, responses);
        if first_terminal {
            push(responses, layer, VectorModificationType::RemovePoint { id: points.0 });
        }
        if second_terminal {
            push(responses, layer, VectorModificationType::RemovePoint { id: points.1 });
        }
        proof {
            assert(responses@ == old(responses)@ + vector_data@.dissolve_segment(layer, segment, points));
        }
    }

    /// Requests to remove the anchor and the segments at it. Returns the two points that it
    /// joined, if there are two.
    pub fn dissolve_anchor(anchor: PointId, responses: &mut VecDeque<Message>, layer: LayerNodeIdentifier, vector_data: &VectorData) -> (links: Option<(Link, Link)>)
        requires
            vector_data@.wf(),
        ensures
            final(responses)@ == old(responses)@ + vector_data@.dissolve_anchor(layer, anchor),
            links == vector_data@.links(anchor),
    {
        push(responses, layer, VectorModificationType::RemovePoint { id: anchor });
        let ghost first = responses@;
        let connected: Vec<HandleId> = vector_data.all_connected(anchor);
        let ghost image = vector_data@.remove_segment_of(layer);
        proof {
            lemma_flat_map_take_ends(connected@, image);
        }
        let mut i: usize = 0;
        while i < connected.len()
            invariant
                i <= connected.len(),
                image == vector_data@.remove_segment_of(layer),
                responses@ == first + connected@.take(i as int).flat_map(image),
            decreases connected.len() - i,
        {
            proof {
                lemma_flat_map_take_step(connected@, image, i as int);
            }
            remove_segment(vector_data, layer, connected[i].segment, responses);
            i += 1;
        }
        proof {
            assert(responses@ == old(responses)@ + vector_data@.dissolve_anchor(layer, anchor));
        }
        let pair: (HandleId, HandleId) = match ManipulatorPointId::Anchor(anchor).get_handle_pair(vector_data) {
            Some(pair) => pair,
            None => return None,
        };
        let start: Option<PointId> = pair.1.opposite().to_manipulator_point().get_anchor(vector_data);
        let end: Option<PointId> = pair.0.opposite().to_manipulator_point().get_anchor(vector_data);
        match (start, end) {
            (Some(start), Some(end)) => Some(
                (Link { handle: pair.1, point: start }, Link { handle: pair.0, point: end }),
            ),
            _ => None,
        }
    }
}

/// A deleted anchor and the two points that it joined.
#[derive(Clone, Copy, Debug)]
pub struct MissingAnchor {
    pub anchor: PointId,
    pub links: (Link, Link),
}

/// Whether the entry is that of the point.
pub open spec fn missing_is(point: PointId) -> spec_fn(MissingAnchor) -> bool {
    |missing: MissingAnchor| missing.anchor == point
}

/// The first of the links that leads to a point not visited yet.
pub open spec fn unvisited_link(links: (Link, Link), visited: Seq<PointId>) -> Option<Link> {
    if !visited.contains(links.0.point) {
        Some(links.0)
    } else if !visited.contains(links.1.point) {
        Some(links.1)
    } else {
        None
    }
}

/// Where a walk along deleted anchors stands: the last link, the deleted anchors not met yet and
/// those met.
pub struct Walk {
    pub link: Option<Link>,
    pub missing: Seq<MissingAnchor>,
    pub visited: Seq<PointId>,
}

/// The walk goes on from link to link as long as the link leads to a deleted anchor.
pub open spec fn follow(walk: Walk) -> Walk
    decreases walk.missing.len(),
{
    match walk.link {
        None => walk,
        Some(link) => match first_index(walk.missing, missing_is(link.point)) {
            None => walk,
            Some(i) => if 0 <= i < walk.missing.len() {
                let visited = walk.visited.push(link.point);
                follow(
                    Walk {
                        link: unvisited_link(walk.missing[i].links, visited),
                        missing: walk.missing.remove(i),
                        visited,
                    },
                )
            } else {
                walk
            },
        },
    }
}

/// A walk meets deleted anchors and forgets none.
pub proof fn lemma_follow_shrinks(walk: Walk)
    ensures
        follow(walk).missing.len() <= walk.missing.len(),
    decreases walk.missing.len(),
{
    if let Some(link) = walk.link {
        if let Some(i) = first_index(walk.missing, missing_is(link.point)) {
            if 0 <= i < walk.missing.len() {
                let visited = walk.visited.push(link.point);
                lemma_follow_shrinks(
                    Walk {
                        link: unvisited_link(walk.missing[i].links, visited),
                        missing: walk.missing.remove(i),
                        visited,
                    },
                );
            }
        }
    }
}

/// A link, unless it leads back to the anchor.
pub open spec fn leading_away(link: Link, anchor: PointId) -> Option<Link> {
    if link.point != anchor {
        Some(link)
    } else {
        None
    }
}

/// The request to keep in line with the new segment what was in line with the far ends of the
/// deleted ones.
pub open spec fn relinking(graph: VectorGraph, layer: LayerNodeIdentifier, start: Link, end: Link) -> spec_fn((HandleId, HandleId)) -> Option<Message> {
    |pair: (HandleId, HandleId)| relink(graph, layer, start, end, pair)
}

pub open spec fn is_far_end(handle: HandleId, start: Link, end: Link) -> bool {
    handle == start.handle.opposite() || handle == end.handle.opposite()
}

pub open spec fn relink(graph: VectorGraph, layer: LayerNodeIdentifier, start: Link, end: Link, pair: (HandleId, HandleId)) -> Option<Message> {
    let segment = start.handle.segment;
    if !is_far_end(pair.0, start, end) && !is_far_end(pair.1, start, end) {
        None
    } else if is_far_end(pair.0, start, end) && is_far_end(pair.1, start, end) {
        None
    } else {
        let other = if !is_far_end(pair.0, start, end) {
            pair.0
        } else {
            pair.1
        };
        match graph.anchor(pair.0.to_manipulator_point()) {
            None => None,
            Some(anchor) => if anchor == start.point {
                Some(g1_message(layer, (other, HandleId::primary(segment)), true))
            } else if anchor == end.point {
                Some(g1_message(layer, (other, HandleId::end(segment)), true))
            } else {
                None
            },
        }
    }
}

/// The handle at the far end of the link's segment, relative to its anchor.
pub open spec fn far_handle(graph: VectorGraph, link: Link) -> DVec2 {
    let far = link.handle.opposite().to_manipulator_point();
    match (graph.position(far), graph.anchor(far)) {
        (Some(handle), Some(anchor)) => match graph.position_from_id(anchor) {
            Some(relative) => difference(handle, relative),
            None => zero(),
        },
        _ => zero(),
    }
}

/// The requests that join the two points by a new segment.
pub open spec fn bridge(graph: VectorGraph, layer: LayerNodeIdentifier, start: Link, end: Link) -> Seq<Message> {
    seq![
        message(
            layer,
            VectorModificationType::InsertSegment {
                id: start.handle.segment,
                points: (start.point, end.point),
                handles: (Some(far_handle(graph, start)), Some(far_handle(graph, end))),
            },
        ),
    ] + graph.colinear.filter_map(relinking(graph, layer, start, end))
}

/// Both ways from a deleted anchor: the two walks, one after the other.
pub open spec fn follow_both(missing: Seq<MissingAnchor>, visited: Seq<PointId>) -> (Walk, Walk) {
    let first = missing[0];
    let one = follow(
        Walk {
            link: leading_away(first.links.0, first.anchor),
            missing: missing.remove(0),
            visited: visited.push(first.anchor),
        },
    );
    let two = follow(
        Walk {
            link: leading_away(first.links.1, first.anchor),
            missing: one.missing,
            visited: one.visited,
        },
    );
    (one, two)
}

/// The requests that join the ends of a chain of deleted anchors, unless an end is deleted too.
pub open spec fn join_ends(graph: VectorGraph, layer: LayerNodeIdentifier, deleted: Seq<PointId>, ends: (Option<Link>, Option<Link>)) -> Seq<Message> {
    match ends {
        (Some(start), Some(end)) => if !deleted.contains(start.point) && !deleted.contains(
            end.point,
        ) {
            bridge(graph, layer, start, end)
        } else {
            Seq::empty()
        },
        _ => Seq::empty(),
    }
}

/// The requests that join what the deletion of the anchors left apart: chain by chain, each from
/// the first deleted anchor that was not met before.
pub open spec fn reconnect(graph: VectorGraph, layer: LayerNodeIdentifier, deleted: Seq<PointId>, missing: Seq<MissingAnchor>, visited: Seq<PointId>) -> Seq<Message>
    decreases missing.len(),
{
    if missing.len() == 0 {
        Seq::empty()
    } else {
        proof {
            lemma_follow_both_shrinks(missing, visited);
        }
        let (one, two) = follow_both(missing, visited);
        join_ends(graph, layer, deleted, (one.link, two.link)) + reconnect(
            graph,
            layer,
            deleted,
            two.missing,
            two.visited,
        )
    }
}

pub proof fn lemma_follow_both_shrinks(missing: Seq<MissingAnchor>, visited: Seq<PointId>)
    requires
        missing.len() > 0,
    ensures
        follow_both(missing, visited).1.missing.len() < missing.len(),
{
    let first = missing[0];
    let start = Walk {
        link: leading_away(first.links.0, first.anchor),
        missing: missing.remove(0),
        visited: visited.push(first.anchor),
    };
    lemma_follow_shrinks(start);
    let one = follow(start);
    lemma_follow_shrinks(
        Walk {
            link: leading_away(first.links.1, first.anchor),
            missing: one.missing,
            visited: one.visited,
        },
    );
}

fn contains_point(points: &Vec<PointId>, point: PointId) -> (result: bool)
    ensures
        result == points@.contains(point),
{
    let mut i: usize = 0;
    while i < points.len()
        invariant
            i <= points.len(),
            forall|j: int| 0 <= j < i ==> points@[j] != point,
        decreases points.len() - i,
    {
        if points[i] == point {
            return true;
        }
        i += 1;
    }
    false
}

fn missing_index(missing: &Vec<MissingAnchor>, point: PointId) -> (index: Option<usize>)
    ensures
        index is Some == first_index(missing@, missing_is(point)) is Some,
        index matches Some(i) ==> first_index(missing@, missing_is(point)) == Some(i as int) && i
            < missing@.len(),
{
    let mut i: usize = 0;
    while i < missing.len()
        invariant
            i <= missing.len(),
            forall|j: int| 0 <= j < i ==> !missing_is(point)(#[trigger] missing@[j]),
        decreases missing.len() - i,
    {
        if missing[i].anchor == point {
            proof {
                lemma_first_index_is(missing@, missing_is(point), i as int);
            }
            return Some(i);
        }
        i += 1;
    }
    proof {
        lemma_first_index_none(missing@, missing_is(point));
    }
    None
}

/// Walks from link to link as long as the link leads to a deleted anchor.
fn walk_on(link: Option<Link>, missing: &mut Vec<MissingAnchor>, visited: &mut Vec<PointId>) -> (end: Option<Link>)
    ensures
        ({
            let walk = follow(Walk { link, missing: old(missing)@, visited: old(visited)@ });
            end == walk.link && final(missing)@ == walk.missing && final(visited)@ == walk.visited
        }),
{
    let ghost goal = follow(Walk { link, missing: missing@, visited: visited@ });
    let mut current: Option<Link> = link;
    loop
        invariant
            goal == follow(Walk { link: current, missing: missing@, visited: visited@ }),
            goal == follow(Walk { link, missing: old(missing)@, visited: old(visited)@ }),
        decreases missing.len(),
    {
        let link_now: Link = match current {
            Some(link_now) => link_now,
            None => return current,
        };
        let index: usize = match missing_index(missing, link_now.point) {
            Some(index) => index,
            None => return current,
        };
        let entry: MissingAnchor = missing.remove(index);
        visited.push(link_now.point);
        current = if !contains_point(visited, entry.links.0.point) {
            Some(entry.links.0)
        } else if !contains_point(visited, entry.links.1.point) {
            Some(entry.links.1)
        } else {
            None
        };
    }
}

/// The handle at the far end of the link's segment, relative to its anchor.
fn compute_far_handle(vector_data: &VectorData, link: Link) -> (handle: DVec2)
    requires
        vector_data@.wf(),
    ensures
        handle == far_handle(vector_data@, link),
{
    let far: ManipulatorPointId = link.handle.opposite().to_manipulator_point();
    match (far.get_position(vector_data), far.get_anchor(vector_data)) {
        (Some(handle), Some(anchor)) => match vector_data.position_from_id(anchor) {
            Some(relative) => minus(handle, relative),
            None => splat(0),
        },
        _ => splat(0),
    }
}

/// Requests to join the two points by a new segment.
fn push_bridge(vector_data: &VectorData, layer: LayerNodeIdentifier, start: Link, end: Link, responses: &mut VecDeque<Message>)
    requires
        vector_data@.wf(),
    ensures
        final(responses)@ == old(responses)@ + bridge(vector_data@, layer, start, end),
{
    let segment: SegmentId = start.handle.segment;
    let handle_start: DVec2 = compute_far_handle(vector_data, start);
    let handle_end: DVec2 = compute_far_handle(vector_data, end);
    push(
        responses,
        layer,
        VectorModificationType::InsertSegment {
            id: segment,
            points: (start.point, end.point),
            handles: (Some(handle_start), Some(handle_end)),
        },
    );
    let ghost first = responses@;
    let ghost image = relinking(vector_data@, layer, start, end);
    proof {
        lemma_filter_map_take_ends(vector_data@.colinear, image);
    }
    let mut i: usize = 0;
    while i < vector_data.colinear_manipulators.len()
        invariant
            i <= vector_data.colinear_manipulators.len(),
            vector_data@.wf(),
            segment == start.handle.segment,
            image == relinking(vector_data@, layer, start, end),
            responses@ == first + vector_data@.colinear.take(i as int).filter_map(image),
        decreases vector_data.colinear_manipulators.len() - i,
    {
        proof {
            lemma_filter_map_take_step(vector_data@.colinear, image, i as int);
        }
        let pair: (HandleId, HandleId) = vector_data.colinear_manipulators[i];
        i += 1;
        let far0: bool = pair.0 == start.handle.opposite() || pair.0 == end.handle.opposite();
        let far1: bool = pair.1 == start.handle.opposite() || pair.1 == end.handle.opposite();
        if far0 == far1 {
            continue;
        }
        let anchor: PointId = match pair.0.to_manipulator_point().get_anchor(vector_data) {
            Some(anchor) => anchor,
            None => continue,
        };
        let other: HandleId = if !far0 {
            pair.0
        } else {
            pair.1
        };
        if anchor == start.point {
            push(
                responses,
                layer,
                VectorModificationType::SetG1Continuous {
                    handles: (other, HandleId::primary(segment)),
                    enabled: true,
                },
            );
        } else if anchor == end.point {
            push(
                responses,
                layer,
                VectorModificationType::SetG1Continuous {
                    handles: (other, HandleId::end(segment)),
                    enabled: true,
                },
            );
        }
    }
    proof {
        assert(responses@ == old(responses)@ + bridge(vector_data@, layer, start, end));
    }
}

/// Requests to join what the deletion of the anchors left apart.
fn push_reconnect(vector_data: &VectorData, layer: LayerNodeIdentifier, deleted: &Vec<PointId>, missing: Vec<MissingAnchor>, responses: &mut VecDeque<Message>)
    requires
        vector_data@.wf(),
    ensures
        final(responses)@ == old(responses)@ + reconnect(
            vector_data@,
            layer,
            deleted@,
            missing@,
            Seq::empty(),
        ),
{
    let ghost goal = responses@ + reconnect(vector_data@, layer, deleted@, missing@, Seq::empty());
    let mut missing: Vec<MissingAnchor> = missing;
    let mut visited: Vec<PointId> = Vec::new();
    while missing.len() > 0
        invariant
            vector_data@.wf(),
            goal == responses@ + reconnect(vector_data@, layer, deleted@, missing@, visited@),
        decreases missing.len(),
    {
        let ghost before = (missing@, visited@);
        let ghost sent = responses@;
        proof {
            lemma_follow_both_shrinks(missing@, visited@);
        }
        let first: MissingAnchor = missing.remove(0);
        visited.push(first.anchor);
        let link0: Option<Link> = if first.links.0.point != first.anchor {
            Some(first.links.0)
        } else {
            None
        };
        let link1: Option<Link> = if first.links.1.point != first.anchor {
            Some(first.links.1)
        } else {
            None
        };
        let end0: Option<Link> = walk_on(link0, &mut missing, &mut visited);
        let end1: Option<Link> = walk_on(link1, &mut missing, &mut visited);
        match (end0, end1) {
            (Some(start), Some(end)) => {
                if !contains_point(deleted, start.point) && !contains_point(deleted, end.point) {
                    push_bridge(vector_data, layer, start, end, responses);
                }
            },
            _ => {},
        }
        proof {
            let (one, two) = follow_both(before.0, before.1);
            let joined = join_ends(vector_data@, layer, deleted@, (one.link, two.link));
            assert(responses@ == sent + joined);
            assert(sent + (joined + reconnect(vector_data@, layer, deleted@, missing@, visited@))
                == responses@ + reconnect(vector_data@, layer, deleted@, missing@, visited@));
        }
    }
}

/// The requests that delete a selected point: an anchor goes with its segments, a handle goes back
/// to its anchor.
pub open spec fn delete_point(graph: VectorGraph, layer: LayerNodeIdentifier) -> spec_fn(ManipulatorPointId) -> Seq<Message> {
    |point: ManipulatorPointId|
        match point.as_handle() {
            None => graph.dissolve_anchor(layer, point->Anchor_0),
            Some(handle) => seq![handle_message(layer, handle, zero())] + graph.unlink(
                layer,
                pair_holds(handle),
            ),
        }
}

/// Whether one of the segments at the anchor is selected.
pub open spec fn has_selected_segment(graph: VectorGraph, segments: Seq<SegmentId>, anchor: PointId) -> bool {
    exists|i: int|
        0 <= i < graph.all_connected(anchor).len() && segments.contains(
            (#[trigger] graph.all_connected(anchor)[i]).segment,
        )
}

/// The deleted anchors whose two neighbors are to be joined: those with two segments, none of them
/// selected.
pub open spec fn missing_at(graph: VectorGraph, segments: Seq<SegmentId>) -> spec_fn(ManipulatorPointId) -> Option<MissingAnchor> {
    |point: ManipulatorPointId|
        match point.as_anchor() {
            None => None,
            Some(anchor) => match graph.links(anchor) {
                Some(links) => if graph.all_connected(anchor).len() <= 2 && !has_selected_segment(
                    graph,
                    segments,
                    anchor,
                ) {
                    Some(MissingAnchor { anchor, links })
                } else {
                    None
                },
                None => None,
            },
        }
}

/// The anchor that a point is, unless it is a handle.
pub open spec fn anchor_of() -> spec_fn(ManipulatorPointId) -> Option<PointId> {
    |point: ManipulatorPointId| point.as_anchor()
}

/// The requests that delete the selected points of a layer and join their neighbors.
pub open spec fn delete_points(document: DocumentView) -> spec_fn(LayerEntry) -> Seq<Message> {
    |entry: LayerEntry|
        match document.vector(entry.layer) {
            None => Seq::empty(),
            Some(vector) => {
                let points = entry.selection.points;
                points.flat_map(delete_point(vector.graph, entry.layer)) + reconnect(
                    vector.graph,
                    entry.layer,
                    points.filter_map(anchor_of()),
                    points.filter_map(missing_at(vector.graph, entry.selection.segments)),
                    Seq::empty(),
                )
            },
        }
}

/// The requests that delete a segment, if it is selected.
pub open spec fn delete_segment(graph: VectorGraph, layer: LayerNodeIdentifier, segments: Seq<SegmentId>) -> spec_fn(Segment) -> Seq<Message> {
    |segment: Segment|
        if segments.contains(segment.id) {
            graph.dissolve_segment(
                layer,
                segment.id,
                (graph.points[segment.start as int].id, graph.points[segment.end as int].id),
            )
        } else {
            Seq::empty()
        }
}

/// The requests that delete the selected segments of a layer.
pub open spec fn delete_segments(document: DocumentView) -> spec_fn(LayerEntry) -> Seq<Message> {
    |entry: LayerEntry|
        match document.vector(entry.layer) {
            None => Seq::empty(),
            Some(vector) => vector.graph.segments.flat_map(
                delete_segment(vector.graph, entry.layer, entry.selection.segments),
            ),
        }
}

/// The points of a layer that has a shape are deselected.
pub open spec fn points_taken(document: DocumentView) -> spec_fn(LayerEntry) -> LayerSelection {
    |entry: LayerEntry|
        if document.vector(entry.layer) is Some {
            entry.selection.clear_points()
        } else {
            entry.selection
        }
}

/// Requests to delete the selected points of the layer and to join their neighbors.
fn delete_points_in_layer(vector_data: &VectorData, layer: LayerNodeIdentifier, points: &Vec<ManipulatorPointId>, segments: &IdSet<SegmentId>, responses: &mut VecDeque<Message>)
    requires
        vector_data@.wf(),
    ensures
        final(responses)@ == old(responses)@ + points@.flat_map(delete_point(vector_data@, layer))
            + reconnect(
            vector_data@,
            layer,
            points@.filter_map(anchor_of()),
            points@.filter_map(missing_at(vector_data@, segments@)),
            Seq::empty(),
        ),
{
    let ghost image = delete_point(vector_data@, layer);
    let ghost absent = missing_at(vector_data@, segments@);
    proof {
        lemma_flat_map_take_ends(points@, image);
        lemma_filter_map_take_ends(points@, absent);
        lemma_filter_map_take_ends(points@, anchor_of());
    }
    let mut missing: Vec<MissingAnchor> = Vec::new();
    let mut deleted: Vec<PointId> = Vec::new();
    let mut i: usize = 0;
    while i < points.len()
        invariant
            i <= points.len(),
            vector_data@.wf(),
            image == delete_point(vector_data@, layer),
            absent == missing_at(vector_data@, segments@),
            responses@ == old(responses)@ + points@.take(i as int).flat_map(image),
            missing@ == points@.take(i as int).filter_map(absent),
            deleted@ == points@.take(i as int).filter_map(anchor_of()),
        decreases points.len() - i,
    {
        proof {
            lemma_flat_map_take_step(points@, image, i as int);
            lemma_filter_map_take_step(points@, absent, i as int);
            lemma_filter_map_take_step(points@, anchor_of(), i as int);
        }
        let point: ManipulatorPointId = points[i];
        let ghost sent = responses@;
        match point.as_handle() {
            None => match point {
                ManipulatorPointId::Anchor(anchor) => {
                    let links: Option<(Link, Link)> = ShapeState::dissolve_anchor(anchor, responses, layer, vector_data);
                    if let Some(links) = links {
                        let connected: Vec<HandleId> = vector_data.all_connected(anchor);
                        if connected.len() <= 2 && !any_segment_selected(vector_data, segments, anchor) {
                            missing.push(MissingAnchor { anchor, links });
                        }
                    }
                    deleted.push(anchor);
                },
                _ => {},
            },
            Some(handle) => {
                let to_anchor: DVec2 = splat(0);
                push(responses, layer, handle.set_relative_position(to_anchor));
                unlink_handle(vector_data, layer, handle, responses);
            },
        }
        proof {
            assert(responses@ == sent + image(point));
        }
        i += 1;
    }
    push_reconnect(vector_data, layer, &deleted, missing, responses);
}

/// Whether one of the segments at the anchor is selected.
fn any_segment_selected(vector_data: &VectorData, segments: &IdSet<SegmentId>, anchor: PointId) -> (result: bool)
    ensures
        result == has_selected_segment(vector_data@, segments@, anchor),
{
    let connected: Vec<HandleId> = vector_data.all_connected(anchor);
    let mut i: usize = 0;
    while i < connected.len()
        invariant
            i <= connected.len(),
            connected@ == vector_data@.all_connected(anchor),
            forall|j: int| 0 <= j < i ==> !segments@.contains((#[trigger] connected@[j]).segment),
        decreases connected.len() - i,
    {
        if segments.contains(connected[i].segment) {
            proof {
                assert(segments@.contains(vector_data@.all_connected(anchor)[i as int].segment));
            }
            return true;
        }
        i += 1;
    }
    false
}

impl ShapeState {
    /// Dissolves the selected points: anchors go with their segments and their neighbors are
    /// joined, handles go back to their anchors.
    pub fn delete_selected_points(&mut self, document: &Document, responses: &mut VecDeque<Message>)
        requires
            old(self)@.wf(),
            document@.wf(),
        ensures
            final(responses)@ == old(responses)@ + old(self)@.layers.flat_map(delete_points(document@)),
            final(self)@ == old(self)@.change_all(points_taken(document@)),
            final(self)@.wf(),
    {
        let ghost change = points_taken(document@);
        let ghost image = delete_points(document@);
        let ghost before = self@;
        proof {
            lemma_changed_ends(before.layers, change);
            lemma_flat_map_take_ends(before.layers, image);
        }
        let mut i: usize = 0;
        while i < self.selected_shape_state.entries.len()
            invariant
                i <= self.selected_shape_state.entries.len(),
                change == points_taken(document@),
                image == delete_points(document@),
                document@.wf(),
                before.wf(),
                self@.wf(),
                self.selected_shape_state.entries.len() == before.layers.len(),
                self@ == (ShapeSelection {
                    layers: changed_until(before.layers, change, i as int),
                    ..before
                }),
                responses@ == old(responses)@ + before.layers.take(i as int).flat_map(image),
            decreases self.selected_shape_state.entries.len() - i,
        {
            proof {
                lemma_changed_step(before.layers, change, i as int);
                lemma_flat_map_take_step(before.layers, image, i as int);
                assert(self@.layers[i as int].selection.wf());
            }
            let ghost layers = self@.layers;
            let layer: LayerNodeIdentifier = self.selected_shape_state.entries[i].layer;
            match document.compute_modified_vector(layer) {
                Some(vector) => {
                    let points: IdSet<ManipulatorPointId> = self.selected_shape_state.entries[i].state.selected_points.duplicate();
                    delete_points_in_layer(
                        &vector.vector_data,
                        layer,
                        &points.items,
                        &self.selected_shape_state.entries[i].state.selected_segments,
                        responses,
                    );
                    self.selected_shape_state.entries[i].state.clear_points();
                },
                None => {},
            }
            proof {
                assert(self@.layers == layers.update(i as int, self@.layers[i as int]));
            }
            i += 1;
        }
        proof {
            lemma_changed_ends(before.layers, change);
            lemma_flat_map_take_ends(before.layers, image);
        }
    }

    /// Deletes the selected segments, and those of their ends at which nothing else is.
    pub fn delete_selected_segments(&mut self, document: &Document, responses: &mut VecDeque<Message>)
        requires
            document@.wf(),
        ensures
            final(responses)@ == old(responses)@ + old(self)@.layers.flat_map(delete_segments(document@)),
            final(self)@ == old(self)@,
    {
        let ghost image = delete_segments(document@);
        proof {
            lemma_flat_map_take_ends(self@.layers, image);
        }
        let mut i: usize = 0;
        while i < self.selected_shape_state.entries.len()
            invariant
                i <= self.selected_shape_state.entries.len(),
                image == delete_segments(document@),
                document@.wf(),
                self@ == old(self)@,
                responses@ == old(responses)@ + self@.layers.take(i as int).flat_map(image),
            decreases self.selected_shape_state.entries.len() - i,
        {
            proof {
                lemma_flat_map_take_step(self@.layers, image, i as int);
            }
            let layer: LayerNodeIdentifier = self.selected_shape_state.entries[i].layer;
            match document.compute_modified_vector(layer) {
                Some(vector) => {
                    self.delete_segments_in_layer(
                        &vector.vector_data,
                        layer,
                        &self.selected_shape_state.entries[i].state.selected_segments,
                        responses,
                    );
                },
                None => {},
            }
            i += 1;
        }
    }

    /// Requests to delete the selected segments of the layer.
    fn delete_segments_in_layer(&self, vector_data: &VectorData, layer: LayerNodeIdentifier, segments: &IdSet<SegmentId>, responses: &mut VecDeque<Message>)
        requires
            vector_data@.wf(),
        ensures
            final(responses)@ == old(responses)@ + vector_data@.segments.flat_map(
                delete_segment(vector_data@, layer, segments@),
            ),
    {
        let ghost image = delete_segment(vector_data@, layer, segments@);
        proof {
            lemma_flat_map_take_ends(vector_data@.segments, image);
        }
        let mut i: usize = 0;
        while i < vector_data.segments.len()
            invariant
                i <= vector_data.segments.len(),
                image == delete_segment(vector_data@, layer, segments@),
                vector_data@.wf(),
                responses@ == old(responses)@ + vector_data@.segments.take(i as int).flat_map(image),
            decreases vector_data.segments.len() - i,
        {
            proof {
                lemma_flat_map_take_step(vector_data@.segments, image, i as int);
                assert(vector_data@.segments[i as int].start < vector_data@.points.len());
            }
            let segment: Segment = vector_data.segments[i];
            if segments.contains(segment.id) {
                let points: (PointId, PointId) = (
                    vector_data.points[segment.start].id,
                    vector_data.points[segment.end].id,
                );
                self.dissolve_segment(responses, layer, vector_data, segment.id, points);
            }
            i += 1;
        }
    }
}

} // verus!
