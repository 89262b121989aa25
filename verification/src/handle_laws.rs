//! Where handles come to lie.
use glam::DVec2;
use vstd::prelude::*;

use crate::angles::{AngleKey, HandleAngle};
use crate::colinear::{align_both, align_unselected, is_short, most_opposite, spread, turn};
use crate::document::{DocumentView, ShapeLayer};
use crate::exact::{
    lemma_after, lemma_cancel, lemma_factors, lemma_four_factors, lemma_less, lemma_opposite, lemma_opposite_angle, lemma_quarter_turn,
    lemma_quotient, lemma_scaled_dot, lemma_signs, lemma_spread, lemma_there_and_back, lemma_times,
    lemma_turn_sum, lemma_unit, without_sign, Exact, Frame, Pair,
};
use crate::geometry::{
    absolute_of, composition, difference, directions_of, dot_product, inverse_of, is_less, length_of, negation, pi, product, quotient,
    relative_to, splat_of, sum,
    transformed_point, transformed_vector, unit, unit_or_zero, zero,
};
use crate::handles::{handle_angle_of, mirror_handle, negligible, opposing_length, pull_direction, pull_handle};
use crate::ids::{HandleId, HandleType, LayerNodeIdentifier, ManipulatorPointId, PointId};
use crate::messages::{Message, VectorModificationType};
use crate::movement::{handle_move, opposite_move, recorded_length, reposition, Drag, HandleLength, LayerLengths};
use crate::selection::LayerSelection;
use crate::shape_state::ShapeSelection;
use crate::snapping::{best_outcome, mouse_move, snap_candidate, snap_offset, SnapCandidate, SnapOutcome};
use crate::vector_data::VectorGraph;

verus! {

/// Whether a request places a handle of a layer, relative to its anchor.
pub open spec fn places_handle(request: Message, layer: LayerNodeIdentifier, handle: HandleId, relative_position: DVec2) -> bool {
    request == (Message::Vector {
        layer,
        modification_type: match handle.ty {
            HandleType::Primary => VectorModificationType::SetPrimaryHandle { segment: handle.segment, relative_position },
            HandleType::End => VectorModificationType::SetEndHandle { segment: handle.segment, relative_position },
        },
    })
}

/// Whether a request moves a point of a layer, of whatever kind, by a vector.
pub open spec fn moves_point(request: Message, layer: LayerNodeIdentifier, point: ManipulatorPointId, delta: DVec2) -> bool {
    request == (Message::Vector {
        layer,
        modification_type: match point {
            ManipulatorPointId::Anchor(point) => VectorModificationType::ApplyPointDelta { point, delta },
            ManipulatorPointId::PrimaryHandle(segment) => VectorModificationType::ApplyPrimaryDelta { segment, delta },
            ManipulatorPointId::EndHandle(segment) => VectorModificationType::ApplyEndDelta { segment, delta },
        },
    })
}

/// A frame takes a point that was moved where it takes the point, moved by the turned vector.
proof fn lemma_take_sum(frame: Frame, p: Pair, q: Pair)
    ensures
        frame.take(p.plus(q)) == frame.take(p).plus(frame.turn(q)),
{
    lemma_turn_sum(frame, p, q);
}

/// A vector of a length that is not below zero, some times a direction.
proof fn lemma_along(exact: Exact, direction: DVec2, length: DVec2, n: real)
    requires
        exact.wf(),
        exact.is_number(length, n),
    ensures
        exact.of(product(direction, length)) == exact.of(direction).scaled(n),
        exact.of(product(length, direction)) == exact.of(direction).scaled(n),
        exact.of(product(negation(direction), length)) == exact.of(direction).opposite().scaled(n),
{
    lemma_factors(exact.of(direction).x, n, n);
    lemma_factors(exact.of(direction).y, n, n);
}

/// On the screen, a drag over the viewport moves a handle by itself: the first request places the handle so that the
/// transform from the layer to the viewport, which can be taken back, shows it moved by the drag.
pub proof fn a_drag_moves_handles_under_the_mouse(
    exact: Exact,
    document: DocumentView,
    vector: ShapeLayer,
    selection: LayerSelection,
    lengths: Option<Seq<LayerLengths>>,
    drag: Drag,
    handle: HandleId,
    anchor: PointId,
)
    requires
        exact.wf(),
        drag.in_viewport_space,
        (exact.frame)(vector.to_viewport).determinant() != 0 as real,
        vector.graph.anchor(handle.to_manipulator_point()) == Some(anchor),
        !selection.points.contains(ManipulatorPointId::Anchor(anchor)),
        vector.graph.position_from_id(anchor) is Some,
        vector.graph.position(handle.to_manipulator_point()) is Some,
    ensures
        handle_move(document, vector, selection, lengths, drag, handle).len() > 0,
        exists|relative: DVec2|
            {
                let anchor_position = vector.graph.position_from_id(anchor)->0;
                let position = vector.graph.position(handle.to_manipulator_point())->0;
                &&& #[trigger] places_handle(
                    handle_move(document, vector, selection, lengths, drag, handle)[0],
                    vector.layer,
                    handle,
                    relative,
                )
                &&& exact.of(transformed_point(vector.to_viewport, sum(anchor_position, relative))) == exact.of(
                    transformed_point(vector.to_viewport, position),
                ).plus(exact.of(drag.delta))
            },
{
    let anchor_position = vector.graph.position_from_id(anchor)->0;
    let position = vector.graph.position(handle.to_manipulator_point())->0;
    let delta = transformed_vector(inverse_of(vector.to_viewport), drag.delta);
    let relative = difference(sum(position, delta), anchor_position);
    assert(places_handle(
        handle_move(document, vector, selection, lengths, drag, handle)[0],
        vector.layer,
        handle,
        relative,
    ));
    lemma_there_and_back(exact, vector.to_viewport, drag.delta);
    assert(exact.of(sum(anchor_position, relative)) == exact.of(position).plus(exact.of(delta)));
    lemma_take_sum((exact.frame)(vector.to_viewport), exact.of(position), exact.of(delta));
}

/// The opposite handle of one that is kept as long comes to lie opposite, as far from the anchor.
pub proof fn an_equidistant_handle_is_opposite(
    exact: Exact,
    document: DocumentView,
    vector: ShapeLayer,
    lengths: Option<Seq<LayerLengths>>,
    drag: Drag,
    other: HandleId,
    relative: DVec2,
    anchor_position: DVec2,
)
    requires
        exact.wf(),
        drag.equidistant,
    ensures
        opposite_move(document, vector, lengths, drag, other, relative, anchor_position) matches Some(found)
            && exact.of(found).plus(exact.of(relative)).is_zero(),
{
}

/// How long a handle is that follows its opposite: as long as is recorded, or as it is in the document.
pub open spec fn kept_length(
    document: DocumentView,
    vector: ShapeLayer,
    lengths: Option<Seq<LayerLengths>>,
    other: HandleId,
    anchor_position: DVec2,
) -> DVec2 {
    match recorded_length(lengths, vector.layer, other) {
        Some(length) => length,
        None => length_of(
            transformed_vector(
                composition(inverse_of(document.document_to_viewport), vector.to_viewport),
                difference(vector.graph.position(other.to_manipulator_point())->0, anchor_position),
            ),
        ),
    }
}

/// The opposite handle of one that is dragged stays in line with it in the document, and keeps its length there: what the
/// document shows of it points the other way from what it shows of the handle that is dragged.
pub proof fn a_colinear_handle_stays_in_line(
    exact: Exact,
    document: DocumentView,
    vector: ShapeLayer,
    lengths: Option<Seq<LayerLengths>>,
    drag: Drag,
    other: HandleId,
    relative: DVec2,
    anchor_position: DVec2,
    direction: Pair,
    length: real,
    kept: real,
)
    requires
        exact.wf(),
        !drag.equidistant,
        drag.opposite_handle_position is None,
        vector.graph.position(other.to_manipulator_point()) is Some,
        (exact.frame)(composition(inverse_of(document.document_to_viewport), vector.to_viewport)).determinant() != 0 as real,
        (exact.frame)(inverse_of(document.document_to_viewport)).turn(
            (exact.frame)(vector.to_viewport).turn(exact.of(relative)),
        ).points_along(direction, length),
        exact.is_number(kept_length(document, vector, lengths, other, anchor_position), kept),
    ensures
        opposite_move(document, vector, lengths, drag, other, relative, anchor_position) matches Some(found) ==> (exact.frame)(
            inverse_of(document.document_to_viewport),
        ).turn((exact.frame)(vector.to_viewport).turn(exact.of(found))) == direction.opposite().scaled(kept),
{
    let transform = composition(inverse_of(document.document_to_viewport), vector.to_viewport);
    let (outer, inner) = ((exact.frame)(inverse_of(document.document_to_viewport)), (exact.frame)(vector.to_viewport));
    lemma_after(outer, inner, exact.of(relative));
    let seen = transformed_vector(transform, relative);
    lemma_unit(exact, seen, direction, length);
    let found_direction = unit(seen)->0;
    let kept_number = kept_length(document, vector, lengths, other, anchor_position);
    let wanted = product(negation(found_direction), kept_number);
    lemma_along(exact, found_direction, kept_number, kept);
    lemma_there_and_back(exact, transform, wanted);
    lemma_after(outer, inner, exact.of(transformed_vector(inverse_of(transform), wanted)));
}

/// A point that is placed in the document comes to lie there, whatever kind of point it is.
pub proof fn a_repositioned_point_is_where_it_is_put(
    exact: Exact,
    state: ShapeSelection,
    document: DocumentView,
    point: ManipulatorPointId,
    new_position: DVec2,
    vector: ShapeLayer,
)
    requires
        exact.wf(),
        !state.is_point_ignored(point),
        document.vector(vector.layer) == Some(vector),
        vector.graph.position(point) is Some,
        (exact.frame)(vector.to_document).determinant() != 0 as real,
    ensures
        reposition(state, document, point, new_position, vector.layer) matches Some(requests) && requests.len() > 0 && exists|delta: DVec2|
            {
                &&& #[trigger] moves_point(requests[0], vector.layer, point, delta)
                &&& exact.of(transformed_point(vector.to_document, sum(vector.graph.position(point)->0, delta))) == exact.of(new_position)
            },
{
    let current = vector.graph.position(point)->0;
    let position = transformed_point(inverse_of(vector.to_document), new_position);
    let delta = difference(position, current);
    lemma_there_and_back(exact, vector.to_document, new_position);
    assert(exact.of(sum(current, delta)) == exact.of(position));
    assert(moves_point(reposition(state, document, point, new_position, vector.layer)->0[0], vector.layer, point, delta));
}

/// The way of the mouse in the document is the way that it went over the viewport.
pub proof fn a_mouse_move_is_seen_in_the_viewport(exact: Exact, document: DocumentView, mouse: DVec2, previous_mouse: DVec2)
    requires
        exact.wf(),
        (exact.frame)(document.document_to_viewport).determinant() != 0 as real,
    ensures
        exact.of(previous_mouse).plus(
            exact.of(transformed_vector(document.document_to_viewport, mouse_move(document, mouse, previous_mouse))),
        ) == exact.of(mouse),
{
    lemma_there_and_back(exact, document.document_to_viewport, difference(mouse, previous_mouse));
}

/// The offset that snapping gives takes the selected point that snaps best from where it is in the document to the place
/// that it snaps to. Where none does, it is the way of the mouse.
pub proof fn a_snapped_point_lands_on_its_target(
    exact: Exact,
    vector: ShapeLayer,
    selection: LayerSelection,
    point: ManipulatorPointId,
    candidates: Seq<SnapCandidate>,
    outcomes: Seq<SnapOutcome>,
    mouse_delta: DVec2,
)
    requires
        exact.wf(),
        best_outcome(outcomes) matches Some(i) ==> Some(candidates[i]) == snap_candidate(vector, selection, mouse_delta)(point),
    ensures
        match best_outcome(outcomes) {
            Some(i) => {
                &&& 0 <= i < outcomes.len()
                &&& outcomes[i].is_better
                &&& forall|j: int| i < j < outcomes.len() ==> !(#[trigger] outcomes[j]).is_better
                &&& exact.of(transformed_point(vector.to_document, vector.graph.position(point)->0)).plus(
                    exact.of(snap_offset(candidates, outcomes, mouse_delta)),
                ) == exact.of(outcomes[i].snapped_point_document)
            },
            None => {
                &&& forall|j: int| 0 <= j < outcomes.len() ==> !(#[trigger] outcomes[j]).is_better
                &&& snap_offset(candidates, outcomes, mouse_delta) == mouse_delta
            },
        },
{
    lemma_best_outcome(outcomes);
}

/// A handle that is brought in line with a selected one comes to lie, in the document, on the other side of the anchor from
/// it, and keeps its length there.
pub proof fn an_unselected_handle_is_put_opposite(
    exact: Exact,
    vector: ShapeLayer,
    anchor: DVec2,
    selected_position: DVec2,
    unselected: HandleId,
    unselected_position: DVec2,
    direction: Pair,
    far: real,
    length: real,
)
    requires
        exact.wf(),
        (exact.frame)(vector.to_document).determinant() != 0 as real,
        (exact.frame)(vector.to_document).turn(exact.of(anchor).minus(exact.of(selected_position))).points_along(direction, far),
        exact.is_number(length_of(transformed_vector(vector.to_document, difference(unselected_position, anchor))), length),
        is_less(negligible(), length_of(difference(anchor, selected_position))),
    ensures
        align_unselected(vector, anchor, selected_position, unselected, unselected_position).len() == 1,
        exists|relative: DVec2|
            {
                &&& #[trigger] places_handle(
                    align_unselected(vector, anchor, selected_position, unselected, unselected_position)[0],
                    vector.layer,
                    unselected,
                    relative,
                )
                &&& (exact.frame)(vector.to_document).turn(exact.of(relative)) == direction.scaled(length)
            },
{
    let seen = transformed_vector(vector.to_document, difference(anchor, selected_position));
    lemma_unit(exact, seen, direction, far);
    let away = transformed_vector(vector.to_document, difference(unselected_position, anchor));
    let wanted = product(unit(seen)->0, length_of(away));
    lemma_along(exact, unit(seen)->0, length_of(away), length);
    lemma_there_and_back(exact, vector.to_document, wanted);
    let relative = transformed_vector(inverse_of(vector.to_document), wanted);
    assert(places_handle(
        align_unselected(vector, anchor, selected_position, unselected, unselected_position)[0],
        vector.layer,
        unselected,
        relative,
    ));
}

/// Two handles that are brought in line keep their lengths, and lie on both sides of the anchor along the vector from the
/// second to the first.
pub proof fn two_handles_are_put_in_line(
    exact: Exact,
    vector: ShapeLayer,
    pair: (HandleId, HandleId),
    anchor_id: PointId,
    anchor: DVec2,
    direction: Pair,
    far: real,
)
    requires
        exact.wf(),
        vector.graph.position(pair.0.to_manipulator_point()) is Some,
        vector.graph.position(pair.1.to_manipulator_point()) is Some,
        !is_short(Some(difference(vector.graph.position(pair.0.to_manipulator_point())->0, anchor))),
        !is_short(Some(difference(vector.graph.position(pair.1.to_manipulator_point())->0, anchor))),
        exact.of(vector.graph.position(pair.0.to_manipulator_point())->0).minus(
            exact.of(vector.graph.position(pair.1.to_manipulator_point())->0),
        ).points_along(direction, far),
    ensures
        align_both(vector, pair, anchor_id, anchor) matches Some(requests) && exists|i: int, j: int, first: DVec2, second: DVec2|
            {
                let a = exact.of(vector.graph.position(pair.0.to_manipulator_point())->0).minus(exact.of(anchor));
                let b = exact.of(vector.graph.position(pair.1.to_manipulator_point())->0).minus(exact.of(anchor));
                &&& 0 <= i < requests.len()
                &&& 0 <= j < requests.len()
                &&& #[trigger] places_handle(requests[i], vector.layer, pair.0, first)
                &&& #[trigger] places_handle(requests[j], vector.layer, pair.1, second)
                &&& lies_along(exact.of(first), direction, a)
                &&& lies_along(exact.of(second), direction.opposite(), b)
            },
{
    let graph = vector.graph;
    let p = graph.position(pair.0.to_manipulator_point())->0;
    let q = graph.position(pair.1.to_manipulator_point())->0;
    let (a, b) = (difference(p, anchor), difference(q, anchor));
    assert(relative_to(Some(p), anchor) == Some(a));
    assert(relative_to(Some(q), anchor) == Some(b));
    assert(exact.of(difference(a, b)) == exact.of(p).minus(exact.of(q)));
    lemma_unit(exact, difference(a, b), direction, far);
    let found = unit(difference(a, b))->0;
    let requests = align_both(vector, pair, anchor_id, anchor)->0;
    let first = product(product(length_of(a), found), splat_of(1));
    let second = product(product(length_of(b), found), splat_of(-1 as i32));
    let (n, m) = (exact.of(length_of(a)).x, exact.of(length_of(b)).x);
    lemma_along(exact, found, length_of(a), n);
    lemma_along(exact, found, length_of(b), m);
    lemma_scaled_dot(direction, n);
    lemma_scaled_dot(direction.opposite(), m);
    lemma_less(direction.x, direction.x, m);
    lemma_less(direction.y, direction.y, m);
    lemma_opposite(exact.of(difference(a, b)), direction, far);
    lemma_times(direction.dot(direction), 1 as real, n * n);
    lemma_times(direction.opposite().dot(direction.opposite()), 1 as real, m * m);
    assert(exact.of(first) == direction.scaled(n));
    let back = exact.of(splat_of(-1 as i32));
    assert(back == Pair::both((-1 as i32) as real));
    assert(((-1 as i32) as real) == 0 as real - 1 as real);
    lemma_less(0 as real, 1 as real, direction.x * m);
    lemma_less(0 as real, 1 as real, direction.y * m);
    assert(exact.of(second) == direction.opposite().scaled(m));
    assert(places_handle(requests[0], vector.layer, pair.0, first));
    let j = spread(graph, vector.layer, pair.0, Some(a), found, 1).len() as int;
    assert(places_handle(requests[j], vector.layer, pair.1, second));
}

/// Whether a vector is as long as another and points along a direction.
pub open spec fn lies_along(vector: Pair, direction: Pair, other: Pair) -> bool {
    &&& vector.dot(vector) == other.dot(other)
    &&& exists|n: real| n >= 0 as real && vector == #[trigger] direction.scaled(n)
}

/// A handle that is mirrored comes to lie opposite, as far from the anchor as the one that is there.
pub proof fn a_mirrored_handle_is_opposite(
    exact: Exact,
    layer: LayerNodeIdentifier,
    graph: VectorGraph,
    pair: (HandleId, HandleId),
    anchor_id: PointId,
    anchor: DVec2,
    there: HandleId,
    missing: HandleId,
    direction: Pair,
    length: real,
)
    requires
        exact.wf(),
        (there, missing) == if graph.is_longer(pair.0, negligible()) {
            (pair.0, pair.1)
        } else {
            (pair.1, pair.0)
        },
        graph.anchor(there.to_manipulator_point()) == Some(anchor_id),
        graph.position_from_id(anchor_id) == Some(anchor),
        graph.position(there.to_manipulator_point()) is Some,
        exact.of(graph.position(there.to_manipulator_point())->0).minus(exact.of(anchor)).points_along(direction, length),
    ensures
        mirror_handle(layer, graph, pair, anchor).len() == 1,
        exists|relative: DVec2|
            {
                &&& #[trigger] places_handle(
                    mirror_handle(layer, graph, pair, anchor)[0],
                    layer,
                    missing,
                    relative,
                )
                &&& exact.of(relative) == exact.of(anchor).minus(exact.of(graph.position(there.to_manipulator_point())->0))
            },
{
    let position = graph.position(there.to_manipulator_point())->0;
    let away = difference(position, anchor);
    lemma_unit(exact, away, direction, length);
    let found = unit(away)->0;
    lemma_along(exact, found, length_of(away), length);
    lemma_less(direction.x, direction.x, length);
    lemma_less(direction.y, direction.y, length);
    let relative = product(negation(found), length_of(away));
    assert(places_handle(
        mirror_handle(layer, graph, pair, anchor)[0],
        layer,
        missing,
        relative,
    ));
}

proof fn lemma_best_outcome(outcomes: Seq<SnapOutcome>)
    ensures
        match best_outcome(outcomes) {
            Some(i) => {
                &&& 0 <= i < outcomes.len()
                &&& outcomes[i].is_better
                &&& forall|j: int| i < j < outcomes.len() ==> !(#[trigger] outcomes[j]).is_better
            },
            None => forall|j: int| 0 <= j < outcomes.len() ==> !(#[trigger] outcomes[j]).is_better,
        },
    decreases outcomes.len(),
{
    if outcomes.len() > 0 && !outcomes.last().is_better {
        let before = outcomes.drop_last();
        lemma_best_outcome(before);
        assert forall|j: int|
            (match best_outcome(before) {
                Some(i) => i < j,
                None => 0 <= j,
            }) && j < outcomes.len() implies !(#[trigger] outcomes[j]).is_better by {
            if j < before.len() {
                assert(before[j] == outcomes[j]);
            }
        }
    }
}

/// A handle that is pulled lies along the direction, on the side of the sign, as far from the anchor as the factor times
/// what the direction sees of the way to the neighbor.
pub proof fn a_pulled_handle_is_along_the_direction(
    exact: Exact,
    layer: LayerNodeIdentifier,
    graph: VectorGraph,
    handle: HandleId,
    neighbor: DVec2,
    anchor: DVec2,
    direction: DVec2,
    length_factor: DVec2,
    factor: real,
    way: Pair,
    far: real,
)
    requires
        exact.wf(),
        exact.is_number(length_factor, factor),
        exact.of(neighbor).minus(exact.of(anchor)).points_along(way, far),
    ensures
        ({
            let seen = exact.of(direction).dot(exact.of(neighbor).minus(exact.of(anchor)));
            let size = factor * (if seen < 0 as real {
                -seen
            } else {
                seen
            });
            let one = pull_handle(layer, graph, handle, Some(neighbor), anchor, direction, length_factor, 1);
            let other = pull_handle(layer, graph, handle, Some(neighbor), anchor, direction, length_factor, -1 as i32);
            &&& one.len() > 0
            &&& other.len() > 0
            &&& exists|relative: DVec2| #[trigger] places_handle(one[0], layer, handle, relative) && exact.of(relative) == exact.of(
                direction,
            ).scaled(size)
            &&& exists|relative: DVec2| #[trigger] places_handle(other[0], layer, handle, relative) && exact.of(relative) == exact.of(
                direction,
            ).opposite().scaled(size)
        }),
{
    let away = difference(neighbor, anchor);
    lemma_unit(exact, away, way, far);
    let found = unit(away)->0;
    let d = exact.of(direction);
    let seen = d.dot(exact.of(away));
    let part = d.dot(way);
    lemma_factors(d.x, way.x, far);
    lemma_factors(d.y, way.y, far);
    lemma_spread(far, d.x * way.x, d.y * way.y);
    assert(seen == part * far);
    lemma_signs(part, far);
    let without = without_sign(part);
    let size = factor * without_sign(seen);
    lemma_less(part, part, far);
    assert(without_sign(seen) == without * far);
    lemma_factors(far, factor, without);
    lemma_factors(factor, without, far);
    lemma_factors(far, without, far);
    let projection = product(product(length_of(away), length_factor), absolute_of(dot_product(direction, found)));
    assert(exact.of(projection) == Pair::both((far * factor) * without));
    assert((far * factor) * without == size);
    lemma_along(exact, direction, projection, size);
    let one = product(product(direction, projection), splat_of(1));
    let other = product(product(direction, projection), splat_of(-1 as i32));
    assert(exact.is_number(splat_of(1), (1 as i32) as real));
    assert(exact.is_number(splat_of(-1 as i32), (-1 as i32) as real));
    assert(((-1 as i32) as real) == 0 as real - 1 as real);
    lemma_less(0 as real, 1 as real, d.x * size);
    lemma_less(0 as real, 1 as real, d.y * size);
    lemma_less(d.x, d.x, size);
    lemma_less(d.y, d.y, size);
    assert(exact.of(one) == d.scaled(size));
    assert(exact.of(other) == d.opposite().scaled(size));
    assert(places_handle(pull_handle(layer, graph, handle, Some(neighbor), anchor, direction, length_factor, 1)[0], layer, handle, one));
    assert(places_handle(
        pull_handle(layer, graph, handle, Some(neighbor), anchor, direction, length_factor, -1 as i32)[0],
        layer,
        handle,
        other,
    ));
}

/// The length that is recorded of a handle is the one that the document shows, of the handle of the pair that is not
/// selected.
pub proof fn recorded_lengths_are_those_in_the_document(
    exact: Exact,
    vector: ShapeLayer,
    selection: LayerSelection,
    pair: (HandleId, HandleId),
    found: HandleLength,
)
    requires
        exact.wf(),
        opposing_length(vector, selection)(pair) == Some(found),
    ensures
        found.handle == pair.0 || found.handle == pair.1,
        !selection.points.contains(found.handle.to_manipulator_point()),
        vector.graph.anchor(pair.0.to_manipulator_point()) matches Some(anchor) && vector.graph.position_from_id(anchor) matches Some(place)
            && vector.graph.position(found.handle.to_manipulator_point()) matches Some(position) && {
            let shown = (exact.frame)(vector.to_document).turn(exact.of(position).minus(exact.of(place)));
            let length = exact.of(found.length).x;
            length >= 0 as real && length * length == shown.dot(shown)
        },
{
}

/// The direction that the handles of an anchor get from the angles of both segments is perpendicular to what lies in the
/// middle between them.
pub proof fn handles_are_across_the_middle(exact: Exact, first: DVec2, second: DVec2, direction: DVec2)
    requires
        exact.wf(),
        directions_of(handle_angle_of(Some(first), Some(second))).contains(direction),
    ensures
        ({
            let (a, b) = (exact.of(first).x, exact.of(second).x);
            let middle = Pair { x: (exact.cos)(a) + (exact.cos)(b), y: (exact.sin)(a) + (exact.sin)(b) };
            exact.of(direction).dot(middle) == 0 as real
        }),
{
    let (a, b) = (exact.of(first).x, exact.of(second).x);
    let m = (a + b) / 2 as real;
    let d = (a - b) / 2 as real;
    let quarter = exact.of(pi()).x / 2 as real;
    assert(exact.is_number(splat_of(2), (2 as i32) as real));
    assert(exact.is_number(zero(), (0 as i32) as real));
    assert(exact.of(handle_angle_of(Some(first), Some(second))).x == m + quarter);
    assert(m + d == a && m + (-d) == b);
    assert(exact.turns_add(m, d));
    assert(exact.turns_add(m, -d));
    assert(exact.turns_add(m, quarter));
    lemma_opposite_angle(exact, d);
    lemma_quarter_turn(exact);
    let (cm, sm, cd, sd, s) = ((exact.cos)(m), (exact.sin)(m), (exact.cos)(d), (exact.sin)(d), (exact.sin)(quarter));
    lemma_less(sd, sd, cm);
    lemma_less(sd, sd, sm);
    let middle = Pair { x: (exact.cos)(a) + (exact.cos)(b), y: (exact.sin)(a) + (exact.sin)(b) };
    assert(middle == (Pair { x: cm * cd + cm * cd, y: sm * cd + sm * cd }));
    lemma_times((exact.cos)(quarter), 0 as real, cm);
    lemma_times((exact.cos)(quarter), 0 as real, sm);
    let found = exact.of(direction);
    assert(found.x == -(sm * s) && found.y == cm * s);
    lemma_spread(found.x, cm * cd, cm * cd);
    lemma_spread(found.y, sm * cd, sm * cd);
    lemma_less(sm * s, sm * s, cm * cd);
    lemma_four_factors(sm, s, cm, cd);
    lemma_four_factors(cm, s, sm, cd);
    lemma_factors(sm, cm, cm);
}

/// The direction in which the first handle is pulled is the one that is given or its opposite: the one of both that faces the
/// neighbor, where there is one neighbor.
pub proof fn handles_are_pulled_towards_the_neighbor(
    exact: Exact,
    direction: DVec2,
    anchor: DVec2,
    neighbor: DVec2,
    way: Pair,
    far: real,
)
    requires
        exact.wf(),
        exact.of(neighbor).minus(exact.of(anchor)).points_along(way, far),
    ensures
        ({
            let first = exact.of(pull_direction(direction, anchor, Some(neighbor), None));
            let second = exact.of(pull_direction(direction, anchor, None, Some(neighbor)));
            &&& first == exact.of(direction) || first == exact.of(direction).opposite()
            &&& second == exact.of(direction) || second == exact.of(direction).opposite()
            &&& first.dot(way) >= 0 as real
            &&& second.dot(way) <= 0 as real
        }),
{
    let away = difference(neighbor, anchor);
    lemma_unit(exact, away, way, far);
    let d = exact.of(direction);
    let seen = dot_product(unit_or_zero(away), direction);
    assert(exact.is_number(seen, way.dot(d)));
    assert(exact.is_number(splat_of(-1 as i32), (-1 as i32) as real));
    assert(((-1 as i32) as real) == 0 as real - 1 as real);
    lemma_less(0 as real, 1 as real, d.x);
    lemma_less(0 as real, 1 as real, d.y);
    assert(exact.of(product(direction, splat_of(-1 as i32))) == d.opposite());
    lemma_less(d.x, d.x, way.x);
    lemma_less(d.y, d.y, way.y);
    lemma_factors(d.x, way.x, way.x);
    lemma_factors(d.y, way.y, way.y);
    assert(d.dot(way) == way.dot(d));
    assert(d.opposite().dot(way) == -way.dot(d));
}

/// Of the handles that one could be brought in line with, it is the one that it is turned the most from.
pub proof fn the_most_opposite_handle_is_turned_the_most(
    angles: Seq<HandleAngle>,
    layer: LayerNodeIdentifier,
    point: ManipulatorPointId,
    handles: Seq<HandleId>,
    n: nat,
)
    requires
        0 < n <= handles.len(),
    ensures
        handles.contains(most_opposite(angles, layer, point, handles, n)),
        forall|j: int|
            0 <= j < n ==> !is_less(
                turn(angles, AngleKey { layer, point, handle: most_opposite(angles, layer, point, handles, n) }),
                turn(angles, AngleKey { layer, point, handle: #[trigger] handles[j] }),
            ),
    decreases n,
{
    if n > 1 {
        the_most_opposite_handle_is_turned_the_most(angles, layer, point, handles, (n - 1) as nat);
    }
    let found = most_opposite(angles, layer, point, handles, n);
    assert forall|j: int| 0 <= j < n implies !is_less(
        turn(angles, AngleKey { layer, point, handle: found }),
        turn(angles, AngleKey { layer, point, handle: #[trigger] handles[j] }),
    ) by {
        if j < n - 1 {
            let before = most_opposite(angles, layer, point, handles, (n - 1) as nat);
            assert(!is_less(turn(angles, AngleKey { layer, point, handle: before }), turn(angles, AngleKey { layer, point, handle: handles[j] })));
        }
    }
}

/// Two handles of which one is missing or too short are drawn out of the anchor: they come to lie on both sides of it along the
/// vector from the second neighbor to the first, each a third as long as the way to its neighbor.
pub proof fn short_handles_are_drawn_out(
    exact: Exact,
    vector: ShapeLayer,
    pair: (HandleId, HandleId),
    anchor_id: PointId,
    anchor: DVec2,
    neighbors: (DVec2, DVec2),
    direction: Pair,
    far: real,
)
    requires
        exact.wf(),
        is_short(relative_to(vector.graph.position(pair.0.to_manipulator_point()), anchor)) || is_short(
            relative_to(vector.graph.position(pair.1.to_manipulator_point()), anchor),
        ),
        vector.graph.far_anchor(pair.0, anchor_id) == Some(neighbors.0),
        vector.graph.far_anchor(pair.1, anchor_id) == Some(neighbors.1),
        exact.of(neighbors.0).minus(exact.of(neighbors.1)).points_along(direction, far),
    ensures
        align_both(vector, pair, anchor_id, anchor) matches Some(requests) && exists|i: int, j: int, first: DVec2, second: DVec2|
            {
                let a = exact.of(neighbors.0).minus(exact.of(anchor));
                let b = exact.of(neighbors.1).minus(exact.of(anchor));
                &&& 0 <= i < requests.len()
                &&& 0 <= j < requests.len()
                &&& #[trigger] places_handle(requests[i], vector.layer, pair.0, first)
                &&& #[trigger] places_handle(requests[j], vector.layer, pair.1, second)
                &&& lies_along(exact.of(first).scaled(3 as real), direction, a)
                &&& lies_along(exact.of(second).scaled(3 as real), direction.opposite(), b)
            },
{
    let graph = vector.graph;
    let three = 3 as real;
    assert(exact.is_number(splat_of(3), (3 as i32) as real));
    let (a, b) = (quotient(difference(neighbors.0, anchor), splat_of(3)), quotient(difference(neighbors.1, anchor), splat_of(3)));
    let (p, q) = (exact.of(neighbors.0).minus(exact.of(anchor)), exact.of(neighbors.1).minus(exact.of(anchor)));
    lemma_quotient(p.x, three);
    lemma_quotient(p.y, three);
    lemma_quotient(q.x, three);
    lemma_quotient(q.y, three);
    assert(exact.of(a).scaled(three) == p);
    assert(exact.of(b).scaled(three) == q);
    let third = far / three;
    lemma_quotient(far, three);
    lemma_factors(direction.x, third, three);
    lemma_factors(direction.y, third, three);
    let apart = exact.of(difference(a, b));
    lemma_less(exact.of(a).x, exact.of(b).x, three);
    lemma_less(exact.of(a).y, exact.of(b).y, three);
    lemma_cancel(apart.x, direction.x * third, three);
    lemma_cancel(apart.y, direction.y * third, three);
    assert(apart == direction.scaled(third));
    lemma_unit(exact, difference(a, b), direction, third);
    let found = unit(difference(a, b))->0;
    let requests = align_both(vector, pair, anchor_id, anchor)->0;
    let first = product(product(length_of(a), found), splat_of(1));
    let second = product(product(length_of(b), found), splat_of(-1 as i32));
    let (n, m) = (exact.of(length_of(a)).x, exact.of(length_of(b)).x);
    lemma_along(exact, found, length_of(a), n);
    lemma_along(exact, found, length_of(b), m);
    assert(exact.of(first) == direction.scaled(n));
    assert(exact.is_number(splat_of(-1 as i32), (-1 as i32) as real));
    assert(((-1 as i32) as real) == 0 as real - 1 as real);
    lemma_less(0 as real, 1 as real, direction.x * m);
    lemma_less(0 as real, 1 as real, direction.y * m);
    lemma_less(direction.x, direction.x, m);
    lemma_less(direction.y, direction.y, m);
    assert(exact.of(second) == direction.opposite().scaled(m));
    lemma_opposite(apart, direction, third);
    lemma_drawn_out(exact.of(a), direction, n, three);
    lemma_drawn_out(exact.of(b), direction.opposite(), m, three);
    assert(places_handle(requests[0], vector.layer, pair.0, first));
    let j = spread(graph, vector.layer, pair.0, Some(a), found, 1).len() as int;
    assert(places_handle(requests[j], vector.layer, pair.1, second));
}

/// A vector along a direction, as long as another, and both some times as long.
proof fn lemma_drawn_out(vector: Pair, direction: Pair, n: real, times: real)
    requires
        direction.is_unit(),
        n >= 0 as real,
        n * n == vector.dot(vector),
        times > 0 as real,
    ensures
        lies_along(direction.scaled(n).scaled(times), direction, vector.scaled(times)),
{
    lemma_scaled_dot(direction, n);
    lemma_times(direction.dot(direction), 1 as real, n * n);
    lemma_scaled_dot(direction.scaled(n), times);
    lemma_scaled_dot(vector, times);
    lemma_factors(direction.x, n, times);
    lemma_factors(direction.y, n, times);
    lemma_signs(n, times);
    assert(direction.scaled(n).scaled(times) == direction.scaled(n * times));
}

} // verus!
