//! What holds of every deletion.
use glam::DVec2;
use vstd::prelude::*;

use crate::deletion::{
    anchor_of, bridge, delete_point, delete_points, follow, follow_both, join_ends, lemma_follow_both_shrinks, message, missing_at, missing_is, reconnect,
    relinking, Link, MissingAnchor,
};
use crate::document::DocumentView;
use crate::exact::Exact;
use crate::ids::{HandleId, LayerNodeIdentifier, ManipulatorPointId, PointId};
use crate::messages::{Message, VectorModificationType};
use crate::sequences::{lemma_filter_map_members, lemma_first_index, lemma_flat_map_take_ends, lemma_flat_map_take_step};
use crate::shape_state::LayerEntry;
use crate::vector_data::VectorGraph;

verus! {

/// The points that a request joins, if it joins any.
pub open spec fn joined_points(request: Message) -> Option<(PointId, PointId)> {
    match request {
        Message::Vector { modification_type: VectorModificationType::InsertSegment { points, .. }, .. } => Some(points),
        _ => None,
    }
}

/// Whether no request joins a deleted point.
pub open spec fn joins_only_others(requests: Seq<Message>, deleted: Seq<PointId>) -> bool {
    forall|k: int|
        0 <= k < requests.len() ==> (joined_points(#[trigger] requests[k]) matches Some(points) ==> !deleted.contains(points.0)
            && !deleted.contains(points.1))
}

/// Joining two points that stay joins no deleted point.
proof fn lemma_bridge(graph: VectorGraph, layer: LayerNodeIdentifier, deleted: Seq<PointId>, start: Link, end: Link)
    requires
        !deleted.contains(start.point),
        !deleted.contains(end.point),
    ensures
        joins_only_others(bridge(graph, layer, start, end), deleted),
{
    let requests = bridge(graph, layer, start, end);
    let image = relinking(graph, layer, start, end);
    let relinked = graph.colinear.filter_map(image);
    lemma_filter_map_members(graph.colinear, image);
    assert forall|k: int| 0 <= k < requests.len() implies (joined_points(#[trigger] requests[k]) matches Some(points) ==> !deleted.contains(
        points.0,
    ) && !deleted.contains(points.1)) by {
        if k > 0 {
            assert(requests[k] == relinked[k - 1]);
            assert(relinked.contains(relinked[k - 1]));
        }
    }
}

/// Where anchors are deleted, their neighbors are joined, but never to a point that is deleted itself.
pub proof fn deleted_points_are_not_joined(graph: VectorGraph, layer: LayerNodeIdentifier, deleted: Seq<PointId>, missing: Seq<MissingAnchor>, visited: Seq<PointId>)
    ensures
        joins_only_others(reconnect(graph, layer, deleted, missing, visited), deleted),
    decreases missing.len(),
{
    if missing.len() > 0 {
        lemma_follow_both_shrinks(missing, visited);
        let (one, two) = follow_both(missing, visited);
        let here = join_ends(graph, layer, deleted, (one.link, two.link));
        let rest = reconnect(graph, layer, deleted, two.missing, two.visited);
        deleted_points_are_not_joined(graph, layer, deleted, two.missing, two.visited);
        if let (Some(start), Some(end)) = (one.link, two.link) {
            if !deleted.contains(start.point) && !deleted.contains(end.point) {
                lemma_bridge(graph, layer, deleted, start, end);
            }
        }
        let all = here + rest;
        assert forall|k: int| 0 <= k < all.len() implies (joined_points(#[trigger] all[k]) matches Some(points) ==> !deleted.contains(
            points.0,
        ) && !deleted.contains(points.1)) by {
            if k < here.len() {
                assert(all[k] == here[k]);
            } else {
                assert(all[k] == rest[k - here.len()]);
            }
        }
        assert(reconnect(graph, layer, deleted, missing, visited) == all);
    }
}

/// What the image of an item holds, the images of all items hold.
proof fn lemma_flat_map_holds<T, U>(items: Seq<T>, f: spec_fn(T) -> Seq<U>, i: int, value: U)
    requires
        0 <= i < items.len(),
        f(items[i]).contains(value),
    ensures
        items.flat_map(f).contains(value),
    decreases items.len(),
{
    let rest = items.drop_last();
    lemma_flat_map_take_ends(items, f);
    lemma_flat_map_take_step(items, f, items.len() - 1);
    assert(items.take(items.len() - 1) == rest);
    let before = rest.flat_map(f);
    let own = f(items.last());
    assert(items.flat_map(f) == before + own);
    if i < rest.len() {
        lemma_flat_map_holds(rest, f, i, value);
        let k = choose|k: int| 0 <= k < before.len() && before[k] == value;
        assert((before + own)[k] == value);
    } else {
        let k = choose|k: int| 0 <= k < own.len() && own[k] == value;
        assert((before + own)[before.len() + k] == value);
    }
}

/// A selected anchor of a layer with a shape is removed, and with it every segment at it.
pub proof fn selected_anchors_are_removed(document: DocumentView, entry: LayerEntry, anchor: PointId, handle: HandleId)
    requires
        document.vector(entry.layer) is Some,
        entry.selection.points.contains(ManipulatorPointId::Anchor(anchor)),
    ensures
        delete_points(document)(entry).contains(message(entry.layer, VectorModificationType::RemovePoint { id: anchor })),
        document.vector(entry.layer)->0.graph.all_connected(anchor).contains(handle) ==> delete_points(document)(entry).contains(
            message(entry.layer, VectorModificationType::RemoveSegment { id: handle.segment }),
        ),
{
    let graph = document.vector(entry.layer)->0.graph;
    let layer = entry.layer;
    let points = entry.selection.points;
    let image = delete_point(graph, layer);
    let removed = points.flat_map(image);
    let joined = reconnect(
        graph,
        layer,
        points.filter_map(anchor_of()),
        points.filter_map(missing_at(graph, entry.selection.segments)),
        Seq::empty(),
    );
    let all = delete_points(document)(entry);
    assert(all == removed + joined);
    let point = ManipulatorPointId::Anchor(anchor);
    let i = choose|i: int| 0 <= i < points.len() && points[i] == point;
    let own = graph.dissolve_anchor(layer, anchor);
    assert(image(point) == own);
    let first = message(layer, VectorModificationType::RemovePoint { id: anchor });
    assert(own[0] == first);
    lemma_flat_map_holds(points, image, i, first);
    lemma_prefix_holds(removed, joined, first);
    let connected = graph.all_connected(anchor);
    if connected.contains(handle) {
        let k = choose|k: int| 0 <= k < connected.len() && connected[k] == handle;
        let per_handle = graph.remove_segment_of(layer);
        let request = message(layer, VectorModificationType::RemoveSegment { id: handle.segment });
        assert(per_handle(handle)[0] == request);
        lemma_flat_map_holds(connected, per_handle, k, request);
        let segments = connected.flat_map(per_handle);
        let m = choose|m: int| 0 <= m < segments.len() && segments[m] == request;
        assert(own[m + 1] == request);
        lemma_flat_map_holds(points, image, i, request);
        lemma_prefix_holds(removed, joined, request);
    }
}

proof fn lemma_prefix_holds<T>(items: Seq<T>, more: Seq<T>, value: T)
    requires
        items.contains(value),
    ensures
        (items + more).contains(value),
{
    let k = choose|k: int| 0 <= k < items.len() && items[k] == value;
    assert((items + more)[k] == value);
}

/// The segment that takes the place of deleted anchors goes between the points that they were joined to, and has the handles
/// that were there: each comes to lie where it was.
pub proof fn a_bridge_keeps_the_far_handles(
    exact: Exact,
    graph: VectorGraph,
    layer: LayerNodeIdentifier,
    start: Link,
    end: Link,
    places: (DVec2, DVec2),
    handles: (DVec2, DVec2),
)
    requires
        exact.wf(),
        graph.anchor(start.handle.opposite().to_manipulator_point()) == Some(start.point),
        graph.anchor(end.handle.opposite().to_manipulator_point()) == Some(end.point),
        graph.position_from_id(start.point) == Some(places.0),
        graph.position_from_id(end.point) == Some(places.1),
        graph.position(start.handle.opposite().to_manipulator_point()) == Some(handles.0),
        graph.position(end.handle.opposite().to_manipulator_point()) == Some(handles.1),
    ensures
        bridge(graph, layer, start, end).len() > 0,
        bridge(graph, layer, start, end)[0] matches Message::Vector {
            layer: changed,
            modification_type: VectorModificationType::InsertSegment { points, handles: (Some(first), Some(second)), .. },
        } && changed == layer && points == (start.point, end.point) && exact.of(places.0).plus(exact.of(first)) == exact.of(handles.0)
            && exact.of(places.1).plus(exact.of(second)) == exact.of(handles.1),
{
}

/// Where one anchor between two others is deleted, its neighbors are joined.
pub proof fn neighbors_of_a_deleted_anchor_are_joined(
    graph: VectorGraph,
    layer: LayerNodeIdentifier,
    deleted: Seq<PointId>,
    anchor: PointId,
    links: (Link, Link),
    visited: Seq<PointId>,
)
    requires
        links.0.point != anchor,
        links.1.point != anchor,
        !deleted.contains(links.0.point),
        !deleted.contains(links.1.point),
    ensures
        reconnect(graph, layer, deleted, seq![MissingAnchor { anchor, links }], visited).len() > 0,
        reconnect(graph, layer, deleted, seq![MissingAnchor { anchor, links }], visited)[0] matches Message::Vector {
            layer: changed,
            modification_type: VectorModificationType::InsertSegment { points, .. },
        } && changed == layer && points == (links.0.point, links.1.point),
{
    let missing = seq![MissingAnchor { anchor, links }];
    lemma_follow_both_shrinks(missing, visited);
    let rest = missing.remove(0);
    assert(rest.len() == 0);
    lemma_first_index(rest, missing_is(links.0.point));
    lemma_first_index(rest, missing_is(links.1.point));
    reveal_with_fuel(follow, 2);
    reveal_with_fuel(reconnect, 2);
    let (one, two) = follow_both(missing, visited);
    assert(one.link == Some(links.0));
    assert(one.missing == rest);
    assert(two.link == Some(links.1));
}

} // verus!
