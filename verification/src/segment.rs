//! The segment under the mouse.
use glam::{DAffine2, DVec2};
use std::collections::VecDeque;
use vstd::prelude::*;

use crate::deletion::{message, push};
use crate::document::{Document, DocumentView, ShapeLayer, VectorLayer};
use crate::fresh_ids::{continues, FreshIds};
use crate::geometry::{
    close, difference, dot, epsilons, epsilons_of, inverse, inverse_of, is_at_most, is_close, is_less, less, minus, perp,
    perpendicular, plus, product, reciprocal, reciprocal_of, relative, relative_to, splat, squared_distance, squared_distance_of,
    squared_length, sum, times, transform_point, transform_vector, transformed_point, transformed_vector, try_normalize, unit,
    vector, zero,
};
use crate::ids::{HandleId, LayerNodeIdentifier, PointId, SegmentId};
use crate::messages::{g1_message, handle_message, Message, VectorModificationType};
use crate::sequences::{find_first, lemma_filter_members, lemma_first_index, lemma_first_index_is, lemma_first_index_none};
use crate::shape_state::{ShapeSelection, ShapeState};
use crate::vector_data::{Bezier, BezierHandles, Segment, VectorData};

verus! {

/// A curve at one of its points: the point, and the two curves into which it splits there.
#[derive(Clone, Copy, Debug)]
pub struct CurveAt {
    pub point: DVec2,
    pub first: Bezier,
    pub second: Bezier,
}

/// Where a segment is nearest to the mouse.
#[derive(Clone, Copy, Debug)]
pub struct SegmentProjection {
    /// The curve of the segment, at its point nearest to the mouse.
    pub curve: CurveAt,
    /// The straight line between the ends of the segment, at the same parameter.
    pub chord: CurveAt,
}

/// Where each segment of a layer is nearest to the mouse, in the order of the segments.
#[derive(Debug)]
pub struct LayerProjections {
    pub layer: LayerNodeIdentifier,
    pub segments: Vec<SegmentProjection>,
}

/// The projections of a layer, as mathematical values.
pub struct ProjectionsView {
    pub layer: LayerNodeIdentifier,
    pub segments: Seq<SegmentProjection>,
}

impl View for LayerProjections {
    type V = ProjectionsView;

    open spec fn view(&self) -> ProjectionsView {
        ProjectionsView { layer: self.layer, segments: self.segments@ }
    }
}

/// The projections of all layers, as mathematical values.
pub open spec fn projections_view(projections: Seq<LayerProjections>) -> Seq<ProjectionsView> {
    projections.map_values(|layer: LayerProjections| layer@)
}

pub open spec fn projections_are_of(layer: LayerNodeIdentifier) -> spec_fn(ProjectionsView) -> bool {
    |projections: ProjectionsView| projections.layer == layer
}

/// The projections of the layer.
pub open spec fn projections_of(projections: Seq<ProjectionsView>, layer: LayerNodeIdentifier) -> Option<Seq<SegmentProjection>> {
    match find_first(projections, projections_are_of(layer)) {
        Some(found) => Some(found.segments),
        None => None,
    }
}

/// Whether each segment of the layer has its projection.
pub open spec fn are_projected(document: DocumentView, projections: Seq<ProjectionsView>, layer: LayerNodeIdentifier) -> bool {
    document.vector(layer) matches Some(vector) ==> {
        &&& projections_of(projections, layer) matches Some(segments)
        &&& segments.len() == vector.graph.segments.len()
    }
}

/// The segment that the mouse points at.
#[derive(Clone, Copy, Debug)]
pub struct ClosestSegment {
    pub layer: LayerNodeIdentifier,
    pub segment: SegmentId,
    pub bezier: Bezier,
    pub points: (PointId, PointId),
    /// The handles of other segments that are kept in line with those of this one.
    pub colinear: (Option<HandleId>, Option<HandleId>),
    /// The curve at its point nearest to the mouse.
    pub at: CurveAt,
    pub bezier_point_to_viewport: DVec2,
}

/// How a handle that is in line with a molded one is to be adjusted.
#[derive(Clone, Copy, Debug)]
pub enum HandleAdjustment {
    /// Put the handle opposite to this one back to where it was, and stop keeping the two in line.
    RestorePrevious { handle: HandleId, control_point: DVec2, anchor: DVec2 },
    /// Turn the handle opposite to this one so that the two stay in line.
    KeepColinear { handle: HandleId, anchor: DVec2, control_point: DVec2 },
    /// Turn the other handle in line with this one, and keep the two so again.
    RestoreColinear { handle: HandleId, other: HandleId, control_point: DVec2, anchor: DVec2 },
}

/// The request that adds the part of a segment that a curve is.
pub open spec fn insert_part(layer: LayerNodeIdentifier, id: SegmentId, points: (PointId, PointId), part: Bezier) -> Message {
    message(
        layer,
        VectorModificationType::InsertSegment {
            id,
            points,
            handles: (relative_to(part.handle_start(), part.start), relative_to(part.handle_end(), part.end)),
        },
    )
}

/// The request to keep a handle in line with the other one, if there is one.
pub open spec fn keep_in_line(layer: LayerNodeIdentifier, handle: Option<HandleId>, other: HandleId) -> Seq<Message> {
    match handle {
        Some(h) => seq![g1_message(layer, (h, other), true)],
        None => Seq::empty(),
    }
}

/// The requests that insert a point where the segment is nearest to the mouse, in place of the
/// segment two that meet there.
pub open spec fn insert_point(closest: ClosestSegment, midpoint: PointId, segments: (SegmentId, SegmentId)) -> Seq<Message> {
    let layer = closest.layer;
    seq![
        message(layer, VectorModificationType::InsertPoint { id: midpoint, position: closest.at.first.end }),
        insert_part(layer, segments.0, (closest.points.0, midpoint), closest.at.first),
        insert_part(layer, segments.1, (midpoint, closest.points.1), closest.at.second),
    ] + (if closest.bezier.handle_end() is Some {
        seq![g1_message(layer, (HandleId::end(segments.0), HandleId::primary(segments.1)), true)]
    } else {
        Seq::empty()
    }) + seq![message(layer, VectorModificationType::RemoveSegment { id: closest.segment })] + keep_in_line(
        layer,
        closest.colinear.0,
        HandleId::primary(segments.0),
    ) + keep_in_line(layer, closest.colinear.1, HandleId::end(segments.1))
}

/// Where the handles of the two parts would be that meet at the point nearest to the mouse.
pub open spec fn inner_handles(closest: ClosestSegment, transform: DAffine2) -> (Option<DVec2>, Option<DVec2>) {
    (
        match closest.at.first.handle_end() {
            Some(handle) => Some(transformed_point(transform, handle)),
            None => None,
        },
        match closest.at.second.handle_start() {
            Some(handle) => Some(transformed_point(transform, handle)),
            None => None,
        },
    )
}

/// The direction of the segment at the point nearest to the mouse: that of its handles there, or
/// that from the end of the segment to its start.
pub open spec fn tangent(closest: ClosestSegment, document: DocumentView, transform: DAffine2) -> Option<DVec2> {
    match inner_handles(closest, transform) {
        (Some(handle1), Some(handle2)) => unit(difference(handle1, handle2)),
        _ => match document.vector(closest.layer) {
            None => None,
            Some(vector) => match (
                vector.graph.position_from_id(closest.points.0),
                vector.graph.position_from_id(closest.points.1),
            ) {
                (Some(position1), Some(position2)) => unit(difference(position1, position2)),
                _ => None,
            },
        },
    }
}

/// How the handles of a segment move when its curve is dragged.
pub struct Molding {
    pub first: DVec2,
    pub second: DVec2,
}

/// Where the handles of a segment go when a point of its curve is dragged to `new_b`.
pub open spec fn mold(closest: ClosestSegment, transform: DAffine2, handles: (DVec2, DVec2), new_b: DVec2) -> Molding {
    let delta = transformed_vector(inverse_of(transform), difference(new_b, closest.bezier_point_to_viewport));
    Molding { first: sum(handles.0, delta), second: sum(handles.1, delta) }
}

/// The requests that move the handles of a segment.
pub open spec fn mold_requests(closest: ClosestSegment, molding: Molding) -> Seq<Message> {
    seq![
        handle_message(closest.layer, HandleId::primary(closest.segment), difference(molding.first, closest.bezier.start)),
        handle_message(closest.layer, HandleId::end(closest.segment), difference(molding.second, closest.bezier.end)),
    ]
}

/// The adjustment by which a handle comes back in line, if there was one in line.
pub open spec fn restore_colinear(handle: HandleId, other: Option<HandleId>, control_point: DVec2, anchor: DVec2) -> Seq<HandleAdjustment> {
    match other {
        Some(o) => seq![HandleAdjustment::RestoreColinear { handle, other: o, control_point, anchor }],
        None => Seq::empty(),
    }
}

/// How the handles in line with the molded ones are to be adjusted.
pub open spec fn mold_adjustments(
    closest: ClosestSegment,
    handles: (DVec2, DVec2),
    molding: Molding,
    break_colinear: bool,
    temporary: Option<(Option<HandleId>, Option<HandleId>)>,
) -> Seq<HandleAdjustment> {
    let handle1 = HandleId::primary(closest.segment);
    let handle2 = HandleId::end(closest.segment);
    let start = closest.bezier.start;
    let end = closest.bezier.end;
    if break_colinear {
        seq![
            HandleAdjustment::RestorePrevious { handle: handle1, control_point: handles.0, anchor: start },
            HandleAdjustment::RestorePrevious { handle: handle2, control_point: handles.1, anchor: end },
        ]
    } else {
        seq![
            HandleAdjustment::KeepColinear { handle: handle1, anchor: start, control_point: molding.first },
            HandleAdjustment::KeepColinear { handle: handle2, anchor: end, control_point: molding.second },
        ] + match temporary {
            Some(adjacent) => restore_colinear(handle1, adjacent.0, molding.first, start) + restore_colinear(
                handle2,
                adjacent.1,
                molding.second,
                end,
            ),
            None => Seq::empty(),
        }
    }
}

impl ClosestSegment {
    pub fn layer(&self) -> (layer: LayerNodeIdentifier)
        ensures
            layer == self.layer,
    {
        self.layer
    }

    pub fn segment(&self) -> (segment: SegmentId)
        ensures
            segment == self.segment,
    {
        self.segment
    }

    pub fn points(&self) -> (points: (PointId, PointId))
        ensures
            points == self.points,
    {
        self.points
    }

    pub fn bezier(&self) -> (bezier: Bezier)
        ensures
            bezier == self.bezier,
    {
        self.bezier
    }

    /// The point nearest to the mouse, in the space of the layer.
    pub fn closest_point_document(&self) -> (point: DVec2)
        ensures
            point == self.at.point,
    {
        self.at.point
    }

    /// The point nearest to the mouse, in the viewport, as last computed.
    pub fn closest_point_to_viewport(&self) -> (point: DVec2)
        ensures
            point == self.bezier_point_to_viewport,
    {
        self.bezier_point_to_viewport
    }

    /// The point nearest to the mouse, in the viewport. The `transform` leads there from the space of
    /// the layer.
    pub fn closest_point(&self, transform: DAffine2) -> (point: DVec2)
        ensures
            point == transformed_point(transform, self.at.point),
    {
        transform_point(transform, self.at.point)
    }

    /// Where the mouse is, in the space of the layer: the position that the curve has to be projected
    /// to before [`ClosestSegment::update_closest_point`].
    pub fn layer_position(&self, transform: DAffine2, mouse_position: DVec2) -> (position: DVec2)
        ensures
            position == transformed_point(inverse_of(transform), mouse_position),
    {
        transform_point(inverse(transform), mouse_position)
    }

    /// Updates this segment with the viewport-space location of the closest point on it: the point of
    /// its curve to which the mouse has been projected.
    pub fn update_closest_point(&mut self, transform: DAffine2, at: CurveAt)
        ensures
            *final(self) == (ClosestSegment {
                at,
                bezier_point_to_viewport: transformed_point(transform, at.point),
                ..*old(self)
            }),
    {
        self.at = at;
        self.bezier_point_to_viewport = transform_point(transform, at.point);
    }

    /// The squared distance of the mouse from the closest point.
    pub fn distance_squared(&self, mouse_position: DVec2) -> (distance: DVec2)
        ensures
            distance == squared_length(difference(self.bezier_point_to_viewport, mouse_position)),
    {
        let away: DVec2 = minus(self.bezier_point_to_viewport, mouse_position);
        dot(away, away)
    }

    /// Whether the mouse is further from the closest point than the tolerance, which is given in
    /// both coordinates.
    pub fn too_far(&self, mouse_position: DVec2, tolerance: DVec2) -> (result: bool)
        ensures
            result == is_less(
                product(tolerance, tolerance),
                squared_length(difference(self.bezier_point_to_viewport, mouse_position)),
            ),
    {
        less(times(tolerance, tolerance), self.distance_squared(mouse_position))
    }

    /// Where the handles of the two parts would be that meet at the closest point, in the viewport.
    pub fn handle_positions(&self, transform: DAffine2) -> (handles: (Option<DVec2>, Option<DVec2>))
        ensures
            handles == inner_handles(*self, transform),
    {
        let first: Option<DVec2> = match self.at.first.handle_end() {
            Some(handle) => Some(transform_point(transform, handle)),
            None => None,
        };
        let second: Option<DVec2> = match self.at.second.handle_start() {
            Some(handle) => Some(transform_point(transform, handle)),
            None => None,
        };
        (first, second)
    }

    /// Inserts a point at the closest point. Returns it and the two segments that meet there.
    pub fn adjusted_insert(&self, ids: &mut FreshIds, responses: &mut VecDeque<Message>) -> (inserted: (PointId, (SegmentId, SegmentId)))
        requires
            old(ids).wf(),
        ensures
            continues(*old(ids), *final(ids)),
            final(ids).used == old(ids).used + 3,
            inserted.0 == PointId(final(ids).values@[old(ids).used as int]),
            inserted.1.0 == SegmentId(final(ids).values@[old(ids).used + 1]),
            inserted.1.1 == SegmentId(final(ids).values@[old(ids).used + 2]),
            final(responses)@ == old(responses)@ + insert_point(*self, inserted.0, inserted.1),
    {
        let layer: LayerNodeIdentifier = self.layer;
        let first: Bezier = self.at.first;
        let second: Bezier = self.at.second;
        let midpoint: PointId = PointId(ids.generate());
        push(responses, layer, VectorModificationType::InsertPoint { id: midpoint, position: first.end });
        let segment0: SegmentId = SegmentId(ids.generate());
        let segment1: SegmentId = SegmentId(ids.generate());
        push(
            responses,
            layer,
            VectorModificationType::InsertSegment {
                id: segment0,
                points: (self.points.0, midpoint),
                handles: (relative(first.handle_start(), first.start), relative(first.handle_end(), first.end)),
            },
        );
        push(
            responses,
            layer,
            VectorModificationType::InsertSegment {
                id: segment1,
                points: (midpoint, self.points.1),
                handles: (relative(second.handle_start(), second.start), relative(second.handle_end(), second.end)),
            },
        );
        if self.bezier.handle_end().is_some() {
            let handles: (HandleId, HandleId) = (HandleId::end(segment0), HandleId::primary(segment1));
            push(responses, layer, VectorModificationType::SetG1Continuous { handles, enabled: true });
        }
        push(responses, layer, VectorModificationType::RemoveSegment { id: self.segment });
        if let Some(handle) = self.colinear.0 {
            let handles: (HandleId, HandleId) = (handle, HandleId::primary(segment0));
            push(responses, layer, VectorModificationType::SetG1Continuous { handles, enabled: true });
        }
        if let Some(handle) = self.colinear.1 {
            let handles: (HandleId, HandleId) = (handle, HandleId::end(segment1));
            push(responses, layer, VectorModificationType::SetG1Continuous { handles, enabled: true });
        }
        proof {
            assert(responses@ == old(responses)@ + insert_point(*self, midpoint, (segment0, segment1)));
        }
        (midpoint, (segment0, segment1))
    }

    /// Inserts a point at the closest point and selects it.
    pub fn adjusted_insert_and_select(&self, shape_editor: &mut ShapeState, ids: &mut FreshIds, responses: &mut VecDeque<Message>, extend_selection: bool)
        requires
            old(ids).wf(),
            old(shape_editor)@.wf(),
        ensures
            continues(*old(ids), *final(ids)),
            final(ids).used == old(ids).used + 3,
            final(responses)@ == old(responses)@ + insert_point(
                *self,
                PointId(final(ids).values@[old(ids).used as int]),
                (SegmentId(final(ids).values@[old(ids).used + 1]), SegmentId(final(ids).values@[old(ids).used + 2])),
            ),
            final(shape_editor)@ == old(shape_editor)@.select_anchor_point_by_id(
                self.layer,
                PointId(final(ids).values@[old(ids).used as int]),
                extend_selection,
            ),
            final(shape_editor)@.wf(),
    {
        let (id, _): (PointId, (SegmentId, SegmentId)) = self.adjusted_insert(ids, responses);
        shape_editor.select_anchor_point_by_id(self.layer, id, extend_selection);
    }

    /// The direction across the segment at the closest point.
    pub fn calculate_perp(&self, document: &Document, transform: DAffine2) -> (direction: DVec2)
        ensures
            direction == perpendicular(match tangent(*self, document@, transform) {
                Some(t) => t,
                None => zero(),
            }),
    {
        let found: Option<DVec2> = match self.handle_positions(transform) {
            (Some(handle1), Some(handle2)) => try_normalize(minus(handle1, handle2)),
            _ => match document.compute_modified_vector(self.layer) {
                None => None,
                Some(vector) => match (
                    vector.vector_data.position_from_id(self.points.0),
                    vector.vector_data.position_from_id(self.points.1),
                ) {
                    (Some(position1), Some(position2)) => try_normalize(minus(position1, position2)),
                    _ => None,
                },
            },
        };
        match found {
            Some(t) => perp(t),
            None => perp(splat(0)),
        }
    }

    /// Molding the bezier curve: its handles, which are at `handles` when the drag begins, move with
    /// the point that is dragged to `new_b`.
    /// Returns adjacent handles' identifiers if colinearity is broken temporarily.
    ///
    /// How the handles in line with those of the segment follow is appended to `adjustments`, and is
    /// to be carried out in that order. The handles that the restoring of their previous positions
    /// gives back are `restored`.
    pub fn mold_handle_positions(
        &self,
        document: &Document,
        transform: DAffine2,
        responses: &mut VecDeque<Message>,
        adjustments: &mut Vec<HandleAdjustment>,
        handles: (DVec2, DVec2),
        new_b: DVec2,
        break_colinear_molding: bool,
        restored: (Option<HandleId>, Option<HandleId>),
        temporary_adjacent_handles_while_molding: Option<(Option<HandleId>, Option<HandleId>)>,
    ) -> (adjacent: Option<(Option<HandleId>, Option<HandleId>)>)
        ensures
            final(responses)@ == old(responses)@ + mold_requests(*self, mold(*self, transform, handles, new_b)),
            document@.vector(self.layer) is None ==> adjacent is None && final(adjustments)@ == old(adjustments)@,
            document@.vector(self.layer) is Some ==> {
                &&& final(adjustments)@ == old(adjustments)@ + mold_adjustments(
                    *self,
                    handles,
                    mold(*self, transform, handles, new_b),
                    break_colinear_molding,
                    temporary_adjacent_handles_while_molding,
                )
                &&& adjacent == if !break_colinear_molding {
                    None
                } else if temporary_adjacent_handles_while_molding is Some {
                    temporary_adjacent_handles_while_molding
                } else {
                    Some(restored)
                }
            },
    {
        let start: DVec2 = self.bezier.start;
        let end: DVec2 = self.bezier.end;
        let delta: DVec2 = transform_vector(inverse(transform), minus(new_b, self.bezier_point_to_viewport));
        let nc1: DVec2 = plus(handles.0, delta);
        let nc2: DVec2 = plus(handles.1, delta);
        let handle1: HandleId = HandleId::primary(self.segment);
        let handle2: HandleId = HandleId::end(self.segment);
        push(responses, self.layer, handle1.set_relative_position(minus(nc1, start)));
        push(responses, self.layer, handle2.set_relative_position(minus(nc2, end)));
        proof {
            assert(responses@ == old(responses)@ + mold_requests(*self, mold(*self, transform, handles, new_b)));
        }
        if document.compute_modified_vector(self.layer).is_none() {
            return None;
        }
        if break_colinear_molding {
            adjustments.push(HandleAdjustment::RestorePrevious { handle: handle1, control_point: handles.0, anchor: start });
            adjustments.push(HandleAdjustment::RestorePrevious { handle: handle2, control_point: handles.1, anchor: end });
            if temporary_adjacent_handles_while_molding.is_some() {
                temporary_adjacent_handles_while_molding
            } else {
                Some(restored)
            }
        } else {
            adjustments.push(HandleAdjustment::KeepColinear { handle: handle1, anchor: start, control_point: nc1 });
            adjustments.push(HandleAdjustment::KeepColinear { handle: handle2, anchor: end, control_point: nc2 });
            if let Some(adjacent) = temporary_adjacent_handles_while_molding {
                if let Some(other) = adjacent.0 {
                    adjustments.push(
                        HandleAdjustment::RestoreColinear { handle: handle1, other, control_point: nc1, anchor: start },
                    );
                }
                if let Some(other) = adjacent.1 {
                    adjustments.push(
                        HandleAdjustment::RestoreColinear { handle: handle2, other, control_point: nc2, anchor: end },
                    );
                }
            }
            proof {
                assert(adjustments@ == old(adjustments)@ + mold_adjustments(
                    *self,
                    handles,
                    mold(*self, transform, handles, new_b),
                    break_colinear_molding,
                    temporary_adjacent_handles_while_molding,
                ));
            }
            None
        }
    }
}

/// The squared distance of a segment from the mouse.
pub open spec fn segment_distance(vector: ShapeLayer, projections: Seq<SegmentProjection>, position: DVec2, i: int) -> DVec2 {
    squared_distance_of(transformed_point(vector.to_viewport, projections[i].curve.point), position)
}

/// The first of the nearest among the first `n` segments, if one is nearer than the limit.
pub open spec fn nearest_segment(vector: ShapeLayer, projections: Seq<SegmentProjection>, position: DVec2, limit: DVec2, n: nat) -> Option<int>
    decreases n,
{
    if n == 0 {
        None
    } else {
        let i = n - 1;
        let before = nearest_segment(vector, projections, position, limit, i as nat);
        let bound = match before {
            Some(k) => segment_distance(vector, projections, position, k),
            None => limit,
        };
        if is_less(segment_distance(vector, projections, position, i), bound) {
            Some(i)
        } else {
            before
        }
    }
}

/// The segment that [`nearest_segment`] finds is nearer than the limit, none is nearer, and none before it is as
/// near. If it finds none, none is nearer than the limit.
pub proof fn nearest_segment_is_nearest(vector: ShapeLayer, projections: Seq<SegmentProjection>, position: DVec2, limit: DVec2, n: nat)
    ensures
        match nearest_segment(vector, projections, position, limit, n) {
            Some(k) => {
                let nearest = segment_distance(vector, projections, position, k);
                &&& 0 <= k < n
                &&& is_less(nearest, limit)
                &&& forall|j: int| 0 <= j < n ==> !is_less(#[trigger] segment_distance(vector, projections, position, j), nearest)
                &&& forall|j: int| 0 <= j < k ==> !is_at_most(#[trigger] segment_distance(vector, projections, position, j), nearest)
            },
            None => forall|j: int| 0 <= j < n ==> !is_less(#[trigger] segment_distance(vector, projections, position, j), limit),
        },
    decreases n,
{
    if n > 0 {
        nearest_segment_is_nearest(vector, projections, position, limit, (n - 1) as nat);
    }
}

/// The handle of a pair that belongs to another segment.
pub open spec fn handle_elsewhere(pair: Option<(HandleId, HandleId)>, segment: SegmentId) -> Option<HandleId> {
    match pair {
        None => None,
        Some((first, second)) => if first.segment != segment {
            Some(first)
        } else if second.segment != segment {
            Some(second)
        } else {
            None
        },
    }
}

/// Whether the handles of a curve are on top of its ends, so that it is a straight line.
pub open spec fn is_straight(bezier: Bezier) -> bool {
    match bezier.handles {
        BezierHandles::Cubic { handle_start, handle_end } => {
            &&& is_close(handle_start, bezier.start, epsilons_of(100))
            &&& is_close(handle_end, bezier.end, epsilons_of(100))
        },
        _ => false,
    }
}

/// The segment that was found under the mouse.
pub open spec fn segment_found(vector: ShapeLayer, projections: Seq<SegmentProjection>, i: int) -> ClosestSegment {
    let graph = vector.graph;
    let segment = graph.segments[i];
    let bezier = graph.bezier(segment);
    let projection = projections[i];
    ClosestSegment {
        layer: vector.layer,
        segment: segment.id,
        bezier: if is_straight(bezier) {
            Bezier { handles: BezierHandles::Linear, ..bezier }
        } else {
            bezier
        },
        points: (graph.points[segment.start as int].id, graph.points[segment.end as int].id),
        colinear: (
            handle_elsewhere(graph.colinear_pair(HandleId::primary(segment.id)), segment.id),
            handle_elsewhere(graph.colinear_pair(HandleId::end(segment.id)), segment.id),
        ),
        at: if is_straight(bezier) {
            projection.chord
        } else {
            projection.curve
        },
        bezier_point_to_viewport: transformed_point(vector.to_viewport, projection.curve.point),
    }
}

/// The squared distance within which a segment counts as pointed at: half a pixel more than the tolerance.
pub open spec fn segment_limit(tolerance: DVec2) -> DVec2 {
    let reach = sum(tolerance, reciprocal_of(2));
    product(reach, reach)
}

/// The segment of the layer that the mouse points at.
pub open spec fn closest_segment_in(
    document: DocumentView,
    layer: LayerNodeIdentifier,
    position: DVec2,
    limit: DVec2,
    projections: Seq<ProjectionsView>,
) -> Option<ClosestSegment> {
    match (document.vector(layer), projections_of(projections, layer)) {
        (Some(vector), Some(segments)) => match nearest_segment(vector, segments, position, limit, vector.graph.segments.len()) {
            Some(i) => Some(segment_found(vector, segments, i)),
            None => None,
        },
        _ => None,
    }
}

/// Whether the mouse points at a segment of the layer.
pub open spec fn has_segment_at(document: DocumentView, position: DVec2, limit: DVec2, projections: Seq<ProjectionsView>) -> spec_fn(LayerNodeIdentifier) -> bool {
    |layer: LayerNodeIdentifier| closest_segment_in(document, layer, position, limit, projections) is Some
}

/// The segment that the mouse points at, of the uppermost layer that has one.
pub open spec fn upper_segment(
    state: ShapeSelection,
    document: DocumentView,
    position: DVec2,
    limit: DVec2,
    projections: Seq<ProjectionsView>,
) -> Option<ClosestSegment> {
    if state.layers.len() == 0 {
        None
    } else if state.layers.len() == 1 {
        closest_segment_in(document, state.layers[0].layer, position, limit, projections)
    } else {
        match find_first(state.sorted_layers(document.layers), has_segment_at(document, position, limit, projections)) {
            Some(layer) => closest_segment_in(document, layer, position, limit, projections),
            None => None,
        }
    }
}

/// The handle of a pair that belongs to another segment.
fn compute_handle_elsewhere(pair: Option<(HandleId, HandleId)>, segment: SegmentId) -> (handle: Option<HandleId>)
    ensures
        handle == handle_elsewhere(pair, segment),
{
    match pair {
        None => None,
        Some((first, second)) => if first.segment != segment {
            Some(first)
        } else if second.segment != segment {
            Some(second)
        } else {
            None
        },
    }
}

/// Whether the handles of a curve are on top of its ends.
fn straight(bezier: Bezier) -> (result: bool)
    ensures
        result == is_straight(bezier),
{
    match bezier.handles {
        BezierHandles::Cubic { handle_start, handle_end } => close(handle_start, bezier.start, epsilons(100)) && close(
            handle_end,
            bezier.end,
            epsilons(100),
        ),
        _ => false,
    }
}

/// The segment that was found under the mouse.
fn found_segment(vector: &VectorLayer, projection: SegmentProjection, i: usize, projections: Ghost<Seq<SegmentProjection>>) -> (closest: ClosestSegment)
    requires
        vector@.graph.wf(),
        i < vector@.graph.segments.len(),
        projection == projections@[i as int],
    ensures
        closest == segment_found(vector@, projections@, i as int),
{
    let vector_data: &VectorData = &vector.vector_data;
    let segment: Segment = vector_data.segments[i];
    proof {
        assert(vector@.graph.segments[i as int] == segment);
    }
    let bezier: Bezier = vector_data.bezier(segment);
    let is_line: bool = straight(bezier);
    let primary: Option<(HandleId, HandleId)> = vector_data.colinear_pair(HandleId::primary(segment.id));
    let end: Option<(HandleId, HandleId)> = vector_data.colinear_pair(HandleId::end(segment.id));
    ClosestSegment {
        layer: vector.layer,
        segment: segment.id,
        bezier: if is_line {
            Bezier { start: bezier.start, end: bezier.end, handles: BezierHandles::Linear }
        } else {
            bezier
        },
        points: (vector_data.points[segment.start].id, vector_data.points[segment.end].id),
        colinear: (compute_handle_elsewhere(primary, segment.id), compute_handle_elsewhere(end, segment.id)),
        at: if is_line {
            projection.chord
        } else {
            projection.curve
        },
        bezier_point_to_viewport: transform_point(vector.to_viewport, projection.curve.point),
    }
}

/// The projections of the layer.
fn lookup_projections(projections: &Vec<LayerProjections>, layer: LayerNodeIdentifier) -> (found: Option<&LayerProjections>)
    ensures
        match found {
            Some(f) => projections_of(projections_view(projections@), layer) == Some(f.segments@),
            None => projections_of(projections_view(projections@), layer) is None,
        },
{
    let ghost list = projections_view(projections@);
    let mut i: usize = 0;
    while i < projections.len()
        invariant
            i <= projections.len(),
            list == projections_view(projections@),
            forall|j: int| 0 <= j < i ==> !projections_are_of(layer)(#[trigger] list[j]),
        decreases projections.len() - i,
    {
        proof {
            assert(list[i as int] == projections@[i as int]@);
        }
        if projections[i].layer == layer {
            proof {
                lemma_first_index_is(list, projections_are_of(layer), i as int);
            }
            return Some(&projections[i]);
        }
        i += 1;
    }
    proof {
        lemma_first_index_none(list, projections_are_of(layer));
    }
    None
}

impl ShapeState {
    /// Finds the segment of the layer that we have clicked upon. The `tolerance` is given in both
    /// coordinates.
    pub fn closest_segment(&self, document: &Document, layer: LayerNodeIdentifier, position: DVec2, tolerance: DVec2, projections: &Vec<LayerProjections>) -> (closest: Option<ClosestSegment>)
        requires
            document@.wf(),
            are_projected(document@, projections_view(projections@), layer),
        ensures
            closest == closest_segment_in(
                document@,
                layer,
                position,
                segment_limit(tolerance),
                projections_view(projections@),
            ),
    {
        let reach: DVec2 = plus(tolerance, reciprocal(2));
        let limit: DVec2 = times(reach, reach);
        let shape: &VectorLayer = match document.compute_modified_vector(layer) {
            Some(shape) => shape,
            None => return None,
        };
        let segments: &Vec<SegmentProjection> = match lookup_projections(projections, layer) {
            Some(found) => &found.segments,
            None => return None,
        };
        let mut nearest: Option<usize> = None;
        let mut bound: DVec2 = limit;
        let mut i: usize = 0;
        while i < segments.len()
            invariant
                i <= segments.len(),
                segments.len() == shape@.graph.segments.len(),
                match nearest {
                    Some(k) => nearest_segment(shape@, segments@, position, limit, i as nat) == Some(k as int) && k < i && bound
                        == segment_distance(shape@, segments@, position, k as int),
                    None => nearest_segment(shape@, segments@, position, limit, i as nat) is None && bound == limit,
                },
            decreases segments.len() - i,
        {
            let distance: DVec2 = squared_distance(transform_point(shape.to_viewport, segments[i].curve.point), position);
            proof {
                assert(distance == segment_distance(shape@, segments@, position, i as int));
            }
            if less(distance, bound) {
                bound = distance;
                nearest = Some(i);
            }
            i += 1;
        }
        match nearest {
            Some(k) => Some(found_segment(shape, segments[k], k, Ghost(segments@))),
            None => None,
        }
    }

    /// Finds the segment closest to the position on selected layers. If there is more than one layer
    /// with a close enough segment it returns the upper of them.
    pub fn upper_closest_segment(&self, document: &Document, position: DVec2, tolerance: DVec2, projections: &Vec<LayerProjections>) -> (closest: Option<ClosestSegment>)
        requires
            document@.wf(),
            forall|i: int|
                0 <= i < self@.layers.len() ==> are_projected(
                    document@,
                    projections_view(projections@),
                    (#[trigger] self@.layers[i]).layer,
                ),
        ensures
            closest == upper_segment(
                self@,
                document@,
                position,
                segment_limit(tolerance),
                projections_view(projections@),
            ),
    {
        let count: usize = self.selected_shape_state.entries.len();
        if count == 0 {
            return None;
        }
        if count == 1 {
            proof {
                assert(are_projected(document@, projections_view(projections@), self@.layers[0].layer));
            }
            return self.closest_segment(
                document,
                self.selected_shape_state.entries[0].layer,
                position,
                tolerance,
                projections,
            );
        }
        let layers: Vec<LayerNodeIdentifier> = self.sorted_selected_layers(document);
        let ghost pred = has_segment_at(document@, position, segment_limit(tolerance), projections_view(projections@));
        let mut i: usize = 0;
        while i < layers.len()
            invariant
                i <= layers.len(),
                self@.layers.len() > 1,
                document@.wf(),
                layers@ == self@.sorted_layers(document@.layers),
                pred == has_segment_at(document@, position, segment_limit(tolerance), projections_view(projections@)),
                forall|k: int|
                    0 <= k < self@.layers.len() ==> are_projected(
                        document@,
                        projections_view(projections@),
                        (#[trigger] self@.layers[k]).layer,
                    ),
                forall|j: int| 0 <= j < i ==> !pred(#[trigger] layers@[j]),
            decreases layers.len() - i,
        {
            proof {
                lemma_filter_members(document@.layers, self@.is_editable());
                assert(layers@.contains(layers@[i as int]));
                lemma_first_index(self@.layers, crate::shape_state::entry_is(layers@[i as int]));
            }
            let found: Option<ClosestSegment> = self.closest_segment(document, layers[i], position, tolerance, projections);
            if found.is_some() {
                proof {
                    lemma_first_index_is(layers@, pred, i as int);
                }
                return found;
            }
            i += 1;
        }
        proof {
            lemma_first_index_none(layers@, pred);
        }
        None
    }
}

/// The two segments that an inserted point puts in place of one lead from its start to the new point
/// and from there to its end, and nothing but the old segment is removed.
pub proof fn inserted_point_joins_both_parts(closest: ClosestSegment, midpoint: PointId, segments: (SegmentId, SegmentId))
    ensures
        insert_point(closest, midpoint, segments)[0] == message(
            closest.layer,
            VectorModificationType::InsertPoint { id: midpoint, position: closest.at.first.end },
        ),
        insert_point(closest, midpoint, segments)[1] matches Message::Vector {
            modification_type: VectorModificationType::InsertSegment { id, points, .. },
            ..
        } && id == segments.0 && points == (closest.points.0, midpoint),
        insert_point(closest, midpoint, segments)[2] matches Message::Vector {
            modification_type: VectorModificationType::InsertSegment { id, points, .. },
            ..
        } && id == segments.1 && points == (midpoint, closest.points.1),
        forall|i: int|
            0 <= i < insert_point(closest, midpoint, segments).len() ==> (
            #[trigger] insert_point(closest, midpoint, segments)[i] matches Message::Vector {
                modification_type: VectorModificationType::RemoveSegment { id },
                ..
            } ==> id == closest.segment),
{
}

} // verus!
