//! What is picked on the screen.
use glam::{DAffine2, DVec2};
use vstd::prelude::*;

use crate::document::{DocumentView, ShapeLayer};
use crate::exact::{lemma_there_and_back, Exact};
use crate::geometry::{difference, inverse_of, is_less, product, squared_length, transformed_point, transformed_vector};
use crate::handle_laws::places_handle;
use crate::handles::{nearest_anchor, nearest_anchor_is_nearest, point_distance};
use crate::ids::{HandleId, ManipulatorPointId, PointId, SegmentId};
use crate::messages::{Message, VectorModificationType};
use crate::movement_laws::{lemma_flat_map_comes_from};
use crate::picking::{
    anchor_candidate, candidates, closest, closest_is_nearest, handle_candidates, is_near, nearest_point, offset_to, viewport_bezier,
    ManipulatorPointInfo,
};
use crate::segment::{
    insert_point, mold, mold_requests, nearest_segment, nearest_segment_is_nearest, segment_distance, segment_found, ClosestSegment,
    Molding, SegmentProjection,
};
use crate::sequences::lemma_first_index;
use crate::shape_state::ShapeSelection;
use crate::vector_data::BezierHandles;

verus! {

/// The square of how far a place of a layer is shown from a place of the viewport.
pub open spec fn shown_distance(vector: ShapeLayer, place: DVec2, position: DVec2) -> DVec2 {
    squared_length(difference(transformed_point(vector.to_viewport, place), position))
}

/// Whether a point is one of a layer's, and shown at a distance from a place of the viewport.
pub open spec fn is_shown_at(vector: ShapeLayer, point: ManipulatorPointId, position: DVec2, distance: DVec2) -> bool {
    match point {
        ManipulatorPointId::Anchor(id) => exists|i: int|
            {
                &&& 0 <= i < vector.graph.points.len()
                &&& (#[trigger] vector.graph.points[i]).id == id
                &&& distance == shown_distance(vector, vector.graph.points[i].position, position)
            },
        ManipulatorPointId::PrimaryHandle(id) => exists|i: int|
            {
                &&& 0 <= i < vector.graph.segments.len()
                &&& (#[trigger] vector.graph.segments[i]).id == id
                &&& match vector.graph.segments[i].handles {
                    BezierHandles::Linear => false,
                    BezierHandles::Quadratic { handle } => distance == shown_distance(vector, handle, position),
                    BezierHandles::Cubic { handle_start, .. } => distance == shown_distance(vector, handle_start, position),
                }
            },
        ManipulatorPointId::EndHandle(id) => exists|i: int|
            {
                &&& 0 <= i < vector.graph.segments.len()
                &&& (#[trigger] vector.graph.segments[i]).id == id
                &&& vector.graph.segments[i].handles matches BezierHandles::Cubic { handle_end, .. } && distance == shown_distance(
                    vector,
                    handle_end,
                    position,
                )
            },
    }
}

/// The point that is picked is shown nearer to the mouse than the limit, and no anchor of its layer is shown nearer than it.
pub proof fn the_picked_point_is_shown_nearest(
    state: ShapeSelection,
    document: DocumentView,
    position: DVec2,
    limit: DVec2,
    info: ManipulatorPointInfo,
    vector: ShapeLayer,
)
    requires
        nearest_point(state, document, position, limit) == Some(info),
        document.vector(info.layer) == Some(vector),
    ensures
        exists|distance: DVec2|
            {
                &&& #[trigger] is_shown_at(vector, info.point_id, position, distance)
                &&& is_less(distance, limit)
                &&& forall|i: int|
                    0 <= i < vector.graph.points.len() ==> !is_less(
                        shown_distance(vector, (#[trigger] vector.graph.points[i]).position, position),
                        distance,
                    )
            },
{
    let near = is_near(document, position, limit);
    lemma_first_index(state.layers, near);
    let hide = document.hide_handle_distance;
    let all = candidates(hide, vector, position);
    closest_is_nearest(all);
    let found = closest(all)->0;
    let segments = vector.graph.segments;
    let f = handle_candidates(hide, vector, position);
    let handles = segments.flat_map(f);
    let anchors = vector.graph.points.map_values(anchor_candidate(vector, position));
    assert(all == handles + anchors);
    let k = choose|k: int| 0 <= k < all.len() && all[k] == found;
    if k < handles.len() {
        assert(segments.take(segments.len() as int) == segments);
        let i = lemma_flat_map_comes_from(segments, f, segments.len() as int, k);
        assert(f(segments[i]).contains(found));
        assert(viewport_bezier(vector, segments[i]).handles is Cubic == segments[i].handles is Cubic);
        assert(segments[i].id == segments[i].id);
    } else {
        let i = k - handles.len();
        assert(anchors[i] == found);
        assert(vector.graph.points[i].id == vector.graph.points[i].id);
    }
    assert(is_shown_at(vector, info.point_id, position, found.distance));
    assert forall|i: int| 0 <= i < vector.graph.points.len() implies !is_less(
        shown_distance(vector, (#[trigger] vector.graph.points[i]).position, position),
        found.distance,
    ) by {
        assert(all[handles.len() + i] == anchors[i]);
    }
}

/// The anchor that is found at a place of the viewport is shown nearest to it, and nearer than the limit.
pub proof fn the_found_anchor_is_shown_nearest(vector: ShapeLayer, target: DVec2, limit: DVec2)
    ensures
        match nearest_anchor(vector, target, limit, vector.graph.points.len()) {
            Some(k) => {
                &&& 0 <= k < vector.graph.points.len()
                &&& is_less(shown_distance(vector, vector.graph.points[k].position, target), limit)
                &&& forall|j: int|
                    0 <= j < vector.graph.points.len() ==> !is_less(
                        shown_distance(vector, (#[trigger] vector.graph.points[j]).position, target),
                        shown_distance(vector, vector.graph.points[k].position, target),
                    )
            },
            None => forall|j: int|
                0 <= j < vector.graph.points.len() ==> !is_less(
                    shown_distance(vector, (#[trigger] vector.graph.points[j]).position, target),
                    limit,
                ),
        },
{
    let n = vector.graph.points.len();
    nearest_anchor_is_nearest(vector, target, limit, n);
    assert forall|j: int| 0 <= j < n implies shown_distance(vector, (#[trigger] vector.graph.points[j]).position, target)
        == point_distance(vector, target, j) by {}
    match nearest_anchor(vector, target, limit, n) {
        Some(k) => {
            assert forall|j: int| 0 <= j < n implies !is_less(
                shown_distance(vector, (#[trigger] vector.graph.points[j]).position, target),
                shown_distance(vector, vector.graph.points[k].position, target),
            ) by {
                assert(!is_less(
                    point_distance(vector, target, j),
                    point_distance(vector, target, k),
                ));
            }
        },
        None => {
            assert forall|j: int| 0 <= j < n implies !is_less(
                shown_distance(vector, (#[trigger] vector.graph.points[j]).position, target),
                limit,
            ) by {
                assert(!is_less(point_distance(vector, target, j), limit));
            }
        },
    }
}

/// The segment that is found at a place of the viewport has its nearest point shown nearest to it, and nearer than the limit.
pub proof fn the_found_segment_is_shown_nearest(vector: ShapeLayer, projections: Seq<SegmentProjection>, position: DVec2, limit: DVec2, n: nat, j: int)
    requires
        0 <= j < n,
    ensures
        match nearest_segment(vector, projections, position, limit, n) {
            Some(k) => {
                &&& 0 <= k < n
                &&& is_less(shown_distance(vector, projections[k].curve.point, position), limit)
                &&& !is_less(
                    shown_distance(vector, projections[j].curve.point, position),
                    shown_distance(vector, projections[k].curve.point, position),
                )
                &&& segment_found(vector, projections, k).bezier_point_to_viewport == transformed_point(
                    vector.to_viewport,
                    projections[k].curve.point,
                )
            },
            None => !is_less(shown_distance(vector, projections[j].curve.point, position), limit),
        },
{
    nearest_segment_is_nearest(vector, projections, position, limit, n);
    assert(shown_distance(vector, projections[j].curve.point, position) == segment_distance(vector, projections, position, j));
}

/// The way to a point is the one from where it is shown to the mouse.
pub proof fn the_offset_leads_to_the_mouse(exact: Exact, document: DocumentView, info: ManipulatorPointInfo, mouse_position: DVec2, vector: ShapeLayer)
    requires
        exact.wf(),
        document.vector(info.layer) == Some(vector),
        vector.graph.position(info.point_id) is Some,
    ensures
        offset_to(document, info, mouse_position) matches Some(offset) && exact.of(
            transformed_point(vector.to_viewport, vector.graph.position(info.point_id)->0),
        ).plus(exact.of(offset)) == exact.of(mouse_position),
{
}

/// Molding a segment moves both of its handles alike: as the transform to the viewport, which can be taken back, shows it, by
/// the way from the point of the curve that is dragged to where it is dragged.
pub proof fn molding_moves_handles_under_the_mouse(
    exact: Exact,
    closest: ClosestSegment,
    transform: DAffine2,
    handles: (DVec2, DVec2),
    new_b: DVec2,
)
    requires
        exact.wf(),
        (exact.frame)(transform).determinant() != 0 as real,
    ensures
        ({
            let molding = mold(closest, transform, handles, new_b);
            let way = exact.of(new_b).minus(exact.of(closest.bezier_point_to_viewport));
            &&& (exact.frame)(transform).turn(exact.of(molding.first).minus(exact.of(handles.0))) == way
            &&& (exact.frame)(transform).turn(exact.of(molding.second).minus(exact.of(handles.1))) == way
        }),
{
    lemma_there_and_back(exact, transform, difference(new_b, closest.bezier_point_to_viewport));
    let delta = transformed_vector(inverse_of(transform), difference(new_b, closest.bezier_point_to_viewport));
    let molding = mold(closest, transform, handles, new_b);
    assert(exact.of(molding.first).minus(exact.of(handles.0)) == exact.of(delta));
    assert(exact.of(molding.second).minus(exact.of(handles.1)) == exact.of(delta));
}

/// The requests of a molding put the handles of the segment where the molding has them.
pub proof fn molded_handles_are_put_there(exact: Exact, closest: ClosestSegment, molding: Molding)
    requires
        exact.wf(),
    ensures
        mold_requests(closest, molding).len() == 2,
        exists|first: DVec2, second: DVec2|
            {
                &&& #[trigger] places_handle(mold_requests(closest, molding)[0], closest.layer, HandleId::primary(closest.segment), first)
                &&& #[trigger] places_handle(mold_requests(closest, molding)[1], closest.layer, HandleId::end(closest.segment), second)
                &&& exact.of(closest.bezier.start).plus(exact.of(first)) == exact.of(molding.first)
                &&& exact.of(closest.bezier.end).plus(exact.of(second)) == exact.of(molding.second)
            },
{
    let (first, second) = (difference(molding.first, closest.bezier.start), difference(molding.second, closest.bezier.end));
    assert(places_handle(mold_requests(closest, molding)[0], closest.layer, HandleId::primary(closest.segment), first));
    assert(places_handle(mold_requests(closest, molding)[1], closest.layer, HandleId::end(closest.segment), second));
}

/// Whether a handle is requested relative to an anchor so that it comes to lie at a place.
pub open spec fn is_requested_at(exact: Exact, relative: Option<DVec2>, anchor: DVec2, place: Option<DVec2>) -> bool {
    match place {
        Some(handle) => relative matches Some(way) && exact.of(anchor).plus(exact.of(way)) == exact.of(handle),
        None => relative is None,
    }
}

/// The segments on both sides of an inserted point have the handles of the parts of the curve.
pub proof fn inserted_segments_have_the_handles_of_the_parts(
    exact: Exact,
    closest: ClosestSegment,
    midpoint: PointId,
    segments: (SegmentId, SegmentId),
)
    requires
        exact.wf(),
    ensures
        insert_point(closest, midpoint, segments)[1] matches Message::Vector {
            layer,
            modification_type: VectorModificationType::InsertSegment { handles, .. },
        } && layer == closest.layer && is_requested_at(exact, handles.0, closest.at.first.start, closest.at.first.handle_start())
            && is_requested_at(exact, handles.1, closest.at.first.end, closest.at.first.handle_end()),
        insert_point(closest, midpoint, segments)[2] matches Message::Vector {
            layer,
            modification_type: VectorModificationType::InsertSegment { handles, .. },
        } && layer == closest.layer && is_requested_at(exact, handles.0, closest.at.second.start, closest.at.second.handle_start())
            && is_requested_at(exact, handles.1, closest.at.second.end, closest.at.second.handle_end()),
{
}

/// Whether a place of a layer is shown farther from another than a distance.
pub open spec fn is_shown_apart(vector: ShapeLayer, one: DVec2, other: DVec2, distance: DVec2) -> bool {
    is_less(
        product(distance, distance),
        squared_length(difference(transformed_point(vector.to_viewport, one), transformed_point(vector.to_viewport, other))),
    )
}

/// Handles that are shown too near to their anchor are hidden, and not picked.
pub proof fn hidden_handles_are_not_picked(
    state: ShapeSelection,
    document: DocumentView,
    position: DVec2,
    limit: DVec2,
    info: ManipulatorPointInfo,
    vector: ShapeLayer,
)
    requires
        nearest_point(state, document, position, limit) == Some(info),
        document.vector(info.layer) == Some(vector),
        info.point_id !is Anchor,
    ensures
        exists|i: int|
            {
                let segment = vector.graph.segments[i];
                let (start, end) = (vector.graph.points[segment.start as int].position, vector.graph.points[segment.end as int].position);
                let hide = document.hide_handle_distance;
                &&& 0 <= i < vector.graph.segments.len()
                &&& match (info.point_id, (#[trigger] vector.graph.segments[i]).handles) {
                    (ManipulatorPointId::PrimaryHandle(id), BezierHandles::Quadratic { handle }) => {
                        &&& id == segment.id
                        &&& is_shown_apart(vector, handle, start, hide)
                        &&& is_shown_apart(vector, handle, end, hide)
                    },
                    (ManipulatorPointId::PrimaryHandle(id), BezierHandles::Cubic { handle_start, .. }) => {
                        id == segment.id && is_shown_apart(vector, handle_start, start, hide)
                    },
                    (ManipulatorPointId::EndHandle(id), BezierHandles::Cubic { handle_end, .. }) => {
                        id == segment.id && is_shown_apart(vector, handle_end, end, hide)
                    },
                    _ => false,
                }
            },
{
    lemma_first_index(state.layers, is_near(document, position, limit));
    let hide = document.hide_handle_distance;
    let all = candidates(hide, vector, position);
    closest_is_nearest(all);
    let found = closest(all)->0;
    let segments = vector.graph.segments;
    let f = handle_candidates(hide, vector, position);
    let handles = segments.flat_map(f);
    let anchors = vector.graph.points.map_values(anchor_candidate(vector, position));
    assert(all == handles + anchors);
    let k = choose|k: int| 0 <= k < all.len() && all[k] == found;
    if k >= handles.len() {
        assert(anchors[k - handles.len()] == found);
    }
    assert(segments.take(segments.len() as int) == segments);
    let i = lemma_flat_map_comes_from(segments, f, segments.len() as int, k);
    assert(f(segments[i]).contains(found));
    let segment = vector.graph.segments[i];
    assert(viewport_bezier(vector, segment).handles is Cubic == segment.handles is Cubic);
    assert(viewport_bezier(vector, segment).handles is Linear == segment.handles is Linear);
}

} // verus!
