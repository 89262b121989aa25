//! Where rounding, warping and jittering put points, and where the center of shapes is.
use glam::{DAffine2, DVec2};
use kurbo::Point;
use vstd::prelude::*;

use crate::exact::{
    lemma_after, lemma_cancel, lemma_factors, lemma_half_angle, lemma_length, lemma_less, lemma_opposite, lemma_opposite_angle, lemma_quotient,
    lemma_scaled_dot, lemma_spread, lemma_still, lemma_supplement, lemma_there_and_back, lemma_times, lemma_unit, without_sign, Exact, Pair,
};
use crate::geometry::{
    absolute_of, angles_between, determinant_of, difference, directions_of, is_less, is_zero, larger_of, lower_of, mixed_of, number_of, pi, product,
    quotient, remainder_of, smaller_of, splat_of, sum, transformed_point, transformed_vector, unit_or_axis, upper_of, vector_of, x_of, y_of, zero,
};
use crate::ids::PointId;
use crate::jitter::{is_touched, jitter_deltas, jittered};
use crate::lengths::{sum_of, sum_of_first};
use crate::measures::{
    all_points_sum, balance, balance_within, box_path, center_of, counts, points_count, points_sum, CentroidType, MeasuredShape,
    Weighted,
};
use crate::paths::{affine_image, affine_inverse, PathElement};
use crate::polyline::{spline_is_smooth, spline_segments, SplineStroke};
use crate::rounding::{
    corner_angle, edge_distance, is_measure_of, round_anchors, round_path, rounded_corner, rounded_count,
    rounding_adds_an_anchor_per_corner, stays, CornerMeasure, Rounding,
};
use crate::sampling::taking_back;
use crate::style::{color_factor, fitted_fill, FillView, GradientView};
use crate::subpath::SubpathView;
use crate::traversal::{held_progress, measured_from};
use crate::vector_data::{BezierHandles, VectorGraph};
use crate::warp::{bilinear, warp_corners, warp_position, Quad};

verus! {

/// The corners of the area that is warped go to the corners of the quadrangle.
pub proof fn corners_are_warped_to_corners(exact: Exact, t: DVec2, quad: Quad)
    requires
        exact.wf(),
    ensures
        exact.of(t) == (Pair { x: 0 as real, y: 0 as real }) ==> exact.of(bilinear(t, quad)) == exact.of(quad.top_left),
        exact.of(t) == (Pair { x: 1 as real, y: 0 as real }) ==> exact.of(bilinear(t, quad)) == exact.of(quad.top_right),
        exact.of(t) == (Pair { x: 1 as real, y: 1 as real }) ==> exact.of(bilinear(t, quad)) == exact.of(quad.bottom_right),
        exact.of(t) == (Pair { x: 0 as real, y: 1 as real }) ==> exact.of(bilinear(t, quad)) == exact.of(quad.bottom_left),
{
    lemma_bilinear(exact, t, quad);
    let (tl, tr, br, bl) = (exact.of(quad.top_left), exact.of(quad.top_right), exact.of(quad.bottom_right), exact.of(quad.bottom_left));
    lemma_mean_at_corners(tl.x, tr.x, br.x, bl.x);
    lemma_mean_at_corners(tl.y, tr.y, br.y, bl.y);
}

proof fn lemma_mean_at_corners(tl: real, tr: real, br: real, bl: real)
    ensures
        mean(tl, tr, br, bl, 0 as real, 0 as real) == tl,
        mean(tl, tr, br, bl, 1 as real, 0 as real) == tr,
        mean(tl, tr, br, bl, 1 as real, 1 as real) == br,
        mean(tl, tr, br, bl, 0 as real, 1 as real) == bl,
{
}

/// One coordinate of a mean of four corners.
spec fn mean(tl: real, tr: real, br: real, bl: real, x: real, y: real) -> real {
    (tl * (1 as real - x)) * (1 as real - y) + (tr * x) * (1 as real - y) + (br * x) * y + (bl * (1 as real - x)) * y
}

proof fn lemma_bilinear(exact: Exact, t: DVec2, quad: Quad)
    requires
        exact.wf(),
    ensures
        ({
            let (tl, tr, br, bl) = (exact.of(quad.top_left), exact.of(quad.top_right), exact.of(quad.bottom_right), exact.of(quad.bottom_left));
            let p = exact.of(t);
            exact.of(bilinear(t, quad)) == (Pair { x: mean(tl.x, tr.x, br.x, bl.x, p.x, p.y), y: mean(tl.y, tr.y, br.y, bl.y, p.x, p.y) })
        }),
{
    assert(exact.is_number(splat_of(1), (1 as i32) as real));
}

/// A number between two, by the share of the second.
pub open spec fn between(a: real, b: real, share: real) -> real {
    a * (1 as real - share) + b * share
}

/// Warping is even along each row and each column of the area: a point at some share of the way between two points of the
/// same row, or column, at its ends goes to the point at that share of the way between where those go.
pub proof fn warping_is_even(exact: Exact, t: DVec2, first: DVec2, last: DVec2, quad: Quad)
    requires
        exact.wf(),
    ensures
        exact.of(first) == (Pair { x: 0 as real, y: exact.of(t).y }) && exact.of(last) == (Pair { x: 1 as real, y: exact.of(t).y }) ==> {
            let (found, a, b) = (exact.of(bilinear(t, quad)), exact.of(bilinear(first, quad)), exact.of(bilinear(last, quad)));
            found == (Pair { x: between(a.x, b.x, exact.of(t).x), y: between(a.y, b.y, exact.of(t).x) })
        },
        exact.of(first) == (Pair { x: exact.of(t).x, y: 0 as real }) && exact.of(last) == (Pair { x: exact.of(t).x, y: 1 as real }) ==> {
            let (found, a, b) = (exact.of(bilinear(t, quad)), exact.of(bilinear(first, quad)), exact.of(bilinear(last, quad)));
            found == (Pair { x: between(a.x, b.x, exact.of(t).y), y: between(a.y, b.y, exact.of(t).y) })
        },
{
    lemma_bilinear(exact, t, quad);
    lemma_bilinear(exact, first, quad);
    lemma_bilinear(exact, last, quad);
    let (tl, tr, br, bl) = (exact.of(quad.top_left), exact.of(quad.top_right), exact.of(quad.bottom_right), exact.of(quad.bottom_left));
    let p = exact.of(t);
    lemma_mean(tl.x, tr.x, br.x, bl.x, p.x, p.y);
    lemma_mean(tl.y, tr.y, br.y, bl.y, p.x, p.y);
}

proof fn lemma_mean(tl: real, tr: real, br: real, bl: real, x: real, y: real)
    ensures
        mean(tl, tr, br, bl, x, y) == between(mean(tl, tr, br, bl, 0 as real, y), mean(tl, tr, br, bl, 1 as real, y), x),
        mean(tl, tr, br, bl, x, y) == between(mean(tl, tr, br, bl, x, 0 as real), mean(tl, tr, br, bl, x, 1 as real), y),
{
    let (u, v) = (1 as real - x, 1 as real - y);
    assert(mean(tl, tr, br, bl, 0 as real, y) == tl * v + bl * y);
    assert(mean(tl, tr, br, bl, 1 as real, y) == tr * v + br * y);
    assert(mean(tl, tr, br, bl, x, 0 as real) == tl * u + tr * x);
    assert(mean(tl, tr, br, bl, x, 1 as real) == bl * u + br * x);
    lemma_spread(u, tl * v, bl * y);
    lemma_spread(x, tr * v, br * y);
    lemma_spread(v, tl * u, tr * x);
    lemma_spread(y, bl * u, br * x);
    lemma_factors(tl, v, u);
    lemma_factors(bl, y, u);
    lemma_factors(tr, v, x);
    lemma_factors(br, y, x);
}

/// Jittering moves the handles of a cubic segment with its anchors: both stay where they are relative to those.
pub proof fn jittered_handles_stay_with_their_anchors(exact: Exact, graph: VectorGraph, transform: DAffine2, deltas: Seq<DVec2>, i: int)
    requires
        exact.wf(),
        graph.wf(),
        0 <= i < graph.segments.len(),
        graph.segments[i].handles is Cubic,
    ensures
        ({
            let found = jittered(graph, transform, deltas);
            let (start, end) = (graph.segments[i].start as int, graph.segments[i].end as int);
            let (old_start, old_end) = (graph.segments[i].handles->handle_start, graph.segments[i].handles->handle_end);
            &&& found.segments[i].handles matches BezierHandles::Cubic { handle_start, handle_end }
            &&& exact.of(handle_start).minus(exact.of(found.points[start].position)) == exact.of(old_start).minus(
                exact.of(graph.points[start].position),
            )
            &&& exact.of(handle_end).minus(exact.of(found.points[end].position)) == exact.of(old_end).minus(
                exact.of(graph.points[end].position),
            )
        }),
{
    let segment = graph.segments[i];
    assert(is_touched(graph.segments, segment.start as int));
    assert(is_touched(graph.segments, segment.end as int));
}

/// An anchor is jittered, as the transform shows it, by the amount times the share in the direction that were drawn for it:
/// no farther than the amount where the share is at most one.
pub proof fn anchors_are_jittered_as_far_as_drawn(
    exact: Exact,
    transform: DAffine2,
    amount: DVec2,
    directions: Seq<DVec2>,
    shares: Seq<DVec2>,
    i: int,
    share: real,
    far: real,
)
    requires
        exact.wf(),
        (exact.frame)(transform).determinant() != 0 as real,
        0 <= i < directions.len(),
        exact.of(directions[i]).is_unit(),
        exact.is_number(shares[i], share),
        exact.is_number(amount, far),
    ensures
        ({
            let seen = exact.of(transformed_vector(transform, jitter_deltas(transform, amount, directions, shares)[i]));
            &&& seen == exact.of(directions[i]).scaled(share * far)
            &&& seen.dot(seen) == (share * far) * (share * far)
        }),
{
    let wanted = product(product(directions[i], shares[i]), amount);
    assert(!is_zero(determinant_of(transform))) by {
        assert(exact.is_number(determinant_of(transform), (exact.frame)(transform).determinant()));
    }
    lemma_there_and_back(exact, transform, wanted);
    let d = exact.of(directions[i]);
    lemma_factors(d.x, share, far);
    lemma_factors(d.y, share, far);
    lemma_scaled_dot(d, share * far);
    lemma_times(d.dot(d), 1 as real, (share * far) * (share * far));
}

/// Which anchors stand where on a rounded path: each keeps its place in the order, one that is rounded as two.
pub proof fn rounded_anchors_keep_their_order(
    path: SubpathView,
    measures: Seq<CornerMeasure>,
    rounding: Rounding,
    id: PointId,
    n: nat,
    i: int,
)
    requires
        0 <= i < n,
    ensures
        ({
            let found = round_anchors(path, measures, rounding, id, n).0;
            let place = i + rounded_count(path, measures, rounding, i as nat);
            &&& stays(path, i, measures[i], rounding) ==> place < found.len() && found[place] == path.groups[i]
            &&& !stays(path, i, measures[i], rounding) ==> place + 1 < found.len() && seq![found[place], found[place + 1]] == rounded_corner(
                path,
                i,
                measures[i],
                rounding,
                round_anchors(path, measures, rounding, id, i as nat).1,
            )
        }),
    decreases n,
{
    let last = n - 1;
    rounding_adds_an_anchor_per_corner(path, measures, rounding, id, last as nat);
    rounding_adds_an_anchor_per_corner(path, measures, rounding, id, n);
    let before = round_anchors(path, measures, rounding, id, last as nat).0;
    let found = round_anchors(path, measures, rounding, id, n).0;
    let place = i + rounded_count(path, measures, rounding, i as nat);
    if i < last {
        rounded_anchors_keep_their_order(path, measures, rounding, id, last as nat, i);
        assert(found[place] == before[place]);
        if !stays(path, i, measures[i], rounding) {
            assert(found[place + 1] == before[place + 1]);
        }
    }
}

/// A rounded corner is cut evenly: the anchors that take its place lie on the edges to both neighbors, as far from the
/// corner on one as on the other, and each has its handle on the edge between it and the corner, at the share of the way that
/// the roundness gives.
pub proof fn a_rounded_corner_is_cut_evenly(
    exact: Exact,
    path: SubpathView,
    i: int,
    measure: CornerMeasure,
    rounding: Rounding,
    id: PointId,
    to_previous: Pair,
    to_next: Pair,
    lengths: (real, real),
    distance: real,
    roundness: real,
)
    requires
        exact.wf(),
        exact.of(path.groups[path.previous(i)].anchor).minus(exact.of(path.groups[i].anchor)).points_along(to_previous, lengths.0),
        exact.of(path.groups[path.next(i)].anchor).minus(exact.of(path.groups[i].anchor)).points_along(to_next, lengths.1),
        exact.is_number(rounding.roundness, roundness),
        exact.is_number(
            edge_distance(
                path.groups[path.previous(i)].anchor,
                path.groups[i].anchor,
                path.groups[path.next(i)].anchor,
                measure,
                rounding,
            ),
            distance,
        ),
    ensures
        ({
            let found = rounded_corner(path, i, measure, rounding, id);
            let corner = exact.of(path.groups[i].anchor);
            &&& found.len() == 2
            &&& exact.of(found[0].anchor) == corner.plus(to_previous.scaled(distance))
            &&& exact.of(found[1].anchor) == corner.plus(to_next.scaled(distance))
            &&& found[0].in_handle is None
            &&& found[1].out_handle is None
            &&& found[0].out_handle matches Some(handle) && exact.of(handle) == exact.of(found[0].anchor).plus(
                corner.minus(exact.of(found[0].anchor)).scaled(roundness),
            )
            &&& found[1].in_handle matches Some(handle) && exact.of(handle) == exact.of(found[1].anchor).plus(
                corner.minus(exact.of(found[1].anchor)).scaled(roundness),
            )
        }),
{
    let (previous, corner, next) = (path.groups[path.previous(i)].anchor, path.groups[i].anchor, path.groups[path.next(i)].anchor);
    let (p, c, n) = (exact.of(previous), exact.of(corner), exact.of(next));
    lemma_opposite(p.minus(c), to_previous, lengths.0);
    assert(exact.of(difference(corner, previous)) == p.minus(c).opposite());
    lemma_unit(exact, difference(corner, previous), to_previous.opposite(), lengths.0);
    lemma_unit(exact, difference(next, corner), to_next, lengths.1);
    assert(exact.is_number(splat_of(1), (1 as i32) as real));
    lemma_less(to_previous.x, to_previous.x, distance);
    lemma_less(to_previous.y, to_previous.y, distance);
    let a = to_previous.scaled(distance);
    let b = to_next.scaled(distance);
    lemma_less(1 as real, roundness, a.x);
    lemma_less(1 as real, roundness, a.y);
    lemma_less(1 as real, roundness, b.x);
    lemma_less(1 as real, roundness, b.y);
    lemma_less(a.x, a.x, roundness);
    lemma_less(a.y, a.y, roundness);
    lemma_less(b.x, b.x, roundness);
    lemma_less(b.y, b.y, roundness);
    lemma_less(a.x, a.x, 1 as real - roundness);
    lemma_less(a.y, a.y, 1 as real - roundness);
}

/// What is read off is the number that it was multiplied from.
proof fn lemma_divided_product(a: real, b: real)
    requires
        b != 0 as real,
    ensures
        (a * b) / b == a,
{
    lemma_quotient(a * b, b);
    lemma_cancel((a * b) / b, a, b);
}

/// The balance of the first shapes does not depend on those behind them.
proof fn lemma_first_balance(shapes: Seq<MeasuredShape>, more: Seq<MeasuredShape>, centroid_type: CentroidType, n: nat)
    requires
        n <= shapes.len(),
        n <= more.len(),
        forall|i: int| 0 <= i < n ==> #[trigger] shapes[i] == more[i],
    ensures
        balance(shapes, centroid_type, n) == balance(more, centroid_type, n),
    decreases n,
{
    if n > 0 {
        lemma_first_balance(shapes, more, centroid_type, (n - 1) as nat);
        assert(shapes[n - 1] == more[n - 1]);
    }
}

/// The center of shapes obeys the lever rule: with one more subpath of a weight above zero, it moves towards that one's
/// center, under its shape's transform, so far that the ways to both centers are in balance by their weights.
pub proof fn centers_obey_the_lever_rule(
    exact: Exact,
    shapes: Seq<MeasuredShape>,
    shape: MeasuredShape,
    centroid_type: CentroidType,
    weight: DVec2,
    center: DVec2,
    w: real,
    all: real,
)
    requires
        exact.wf(),
        shape.subpaths@ == seq![Some(Weighted { center, weight })],
        exact.is_number(weight, w),
        w > 0 as real,
        exact.is_number(balance(shapes, centroid_type, shapes.len()).weight, all),
        all > 0 as real,
    ensures
        ({
            let old_center = exact.of(center_of(shapes, centroid_type));
            let new_center = exact.of(center_of(shapes.push(shape), centroid_type));
            let own = exact.of(transformed_point(shape.transform, center));
            new_center.minus(old_center).scaled(all) == own.minus(new_center).scaled(w)
        }),
{
    let more = shapes.push(shape);
    lemma_first_balance(shapes, more, centroid_type, shapes.len());
    let before = balance(shapes, centroid_type, shapes.len());
    let after = balance(more, centroid_type, more.len());
    reveal_with_fuel(balance_within, 3);
    assert(more[shapes.len() as int] == shape);
    assert(exact.is_number(zero(), (0 as i32) as real));
    assert(counts(centroid_type, Weighted { center, weight }));
    let own = transformed_point(shape.transform, center);
    assert(after.weight == sum(before.weight, weight));
    assert(after.moment == sum(before.moment, product(weight, own)));
    let (m, c) = (exact.of(before.moment), exact.of(own));
    let (p, q) = (exact.of(center_of(shapes, centroid_type)), exact.of(center_of(more, centroid_type)));
    lemma_lever(m.x, c.x, w, all, p.x, q.x);
    lemma_lever(m.y, c.y, w, all, p.y, q.y);
}

proof fn lemma_lever(m: real, c: real, w: real, all: real, p: real, q: real)
    requires
        all > 0 as real,
        w > 0 as real,
        p == m / all,
        q == (m + w * c) / (all + w),
    ensures
        (q - p) * all == (c - q) * w,
{
    lemma_quotient(m, all);
    lemma_quotient(m + w * c, all + w);
    lemma_spread(q, all, w);
    lemma_less(q, p, all);
    lemma_less(c, q, w);
    lemma_factors(w, c, c);
}

/// The center of shapes with one subpath is that subpath's, under the shape's transform.
pub proof fn the_center_of_one_subpath_is_its_own(
    exact: Exact,
    shape: MeasuredShape,
    centroid_type: CentroidType,
    weight: DVec2,
    center: DVec2,
    w: real,
)
    requires
        exact.wf(),
        shape.subpaths@ == seq![Some(Weighted { center, weight })],
        exact.is_number(weight, w),
        w > 0 as real,
    ensures
        exact.of(center_of(seq![shape], centroid_type)) == exact.of(transformed_point(shape.transform, center)),
{
    let shapes = seq![shape];
    reveal_with_fuel(balance_within, 3);
    reveal_with_fuel(balance, 3);
    assert(exact.is_number(zero(), (0 as i32) as real));
    assert(counts(centroid_type, Weighted { center, weight }));
    let own = transformed_point(shape.transform, center);
    let found = balance(shapes, centroid_type, 1);
    assert(found.weight == sum(zero(), weight));
    assert(found.moment == sum(zero(), product(weight, own)));
    let c = exact.of(own);
    lemma_factors(w, c.x, c.x);
    lemma_factors(w, c.y, c.y);
    lemma_divided_product(c.x, w);
    lemma_divided_product(c.y, w);
}

/// Subpaths without an area do not weigh anything where areas are measured.
pub proof fn subpaths_without_area_do_not_count(shapes: Seq<MeasuredShape>, shape: MeasuredShape, subpath: Weighted)
    requires
        shape.subpaths@ == seq![Some(subpath)],
        !is_less(zero(), subpath.weight),
    ensures
        balance(shapes.push(shape), CentroidType::Area, shapes.len() + 1) == balance(shapes, CentroidType::Area, shapes.len()),
{
    lemma_first_balance(shapes, shapes.push(shape), CentroidType::Area, shapes.len());
    reveal_with_fuel(balance_within, 3);
    assert(shapes.push(shape)[shapes.len() as int] == shape);
}

/// Where nothing weighs, the center of points that are all at one place is there.
pub proof fn the_center_of_points_at_one_place_is_there(
    exact: Exact,
    shapes: Seq<MeasuredShape>,
    centroid_type: CentroidType,
    place: Pair,
)
    requires
        exact.wf(),
        !is_less(zero(), balance(shapes, centroid_type, shapes.len()).weight),
        0 < points_count(shapes, shapes.len()) <= u64::MAX,
        forall|i: int, j: int|
            0 <= i < shapes.len() && 0 <= j < shapes[i].positions@.len() ==> exact.of(
                transformed_point(shapes[i].transform, #[trigger] shapes[i].positions@[j]),
            ) == place,
    ensures
        exact.of(center_of(shapes, centroid_type)) == place,
{
    let count = points_count(shapes, shapes.len());
    lemma_all_points(exact, shapes, place, shapes.len());
    assert(exact.is_number(number_of(count as u64), count as real));
    lemma_divided_product(place.x, count as real);
    lemma_divided_product(place.y, count as real);
}

proof fn lemma_points(exact: Exact, shape: MeasuredShape, start: DVec2, place: Pair, count: nat, n: nat)
    requires
        exact.wf(),
        n <= shape.positions@.len(),
        exact.of(start) == place.scaled(count as real),
        forall|j: int|
            0 <= j < shape.positions@.len() ==> exact.of(transformed_point(shape.transform, #[trigger] shape.positions@[j])) == place,
    ensures
        exact.of(points_sum(shape, start, n)) == place.scaled((count + n) as real),
    decreases n,
{
    if n > 0 {
        lemma_points(exact, shape, start, place, count, (n - 1) as nat);
        let k = (count + n - 1) as real;
        assert((count + n) as real == k + 1 as real);
        lemma_spread(place.x, k, 1 as real);
        lemma_spread(place.y, k, 1 as real);
        assert(place.x * (1 as real) == place.x && place.y * (1 as real) == place.y);
        let position = shape.positions@[n - 1];
        assert(exact.of(transformed_point(shape.transform, position)) == place);
    }
}

proof fn lemma_all_points(exact: Exact, shapes: Seq<MeasuredShape>, place: Pair, n: nat)
    requires
        exact.wf(),
        n <= shapes.len(),
        forall|i: int, j: int|
            0 <= i < shapes.len() && 0 <= j < shapes[i].positions@.len() ==> exact.of(
                transformed_point(shapes[i].transform, #[trigger] shapes[i].positions@[j]),
            ) == place,
    ensures
        exact.of(all_points_sum(shapes, n)) == place.scaled(points_count(shapes, n) as real),
    decreases n,
{
    if n == 0 {
        assert(exact.is_number(zero(), (0 as i32) as real));
        assert(place.x * (0 as real) == 0 as real && place.y * (0 as real) == 0 as real);
    } else {
        lemma_all_points(exact, shapes, place, (n - 1) as nat);
        let shape = shapes[n - 1];
        lemma_points(exact, shape, all_points_sum(shapes, (n - 1) as nat), place, points_count(shapes, (n - 1) as nat), shape.positions@.len());
    }
}

/// The path of a box goes around it: along its lower edge, up, back along the upper edge, and closes.
pub proof fn a_box_is_drawn_around(exact: Exact, low: DVec2, high: DVec2)
    requires
        exact.wf(),
    ensures
        ({
            let path = box_path(Some((low, high)));
            let (a, b) = (exact.of(low), exact.of(high));
            &&& path.len() == 5
            &&& path[0] matches PathElement::MoveTo(p) && exact.point(p) == a
            &&& path[1] matches PathElement::LineTo(p) && exact.point(p) == (Pair { x: b.x, y: a.y })
            &&& path[2] matches PathElement::LineTo(p) && exact.point(p) == b
            &&& path[3] matches PathElement::LineTo(p) && exact.point(p) == (Pair { x: a.x, y: b.y })
            &&& path[4] is ClosePath
        }),
{
}

/// The handle of a quadratic segment is jittered by half of what both anchors are together.
pub proof fn a_quadratic_handle_is_jittered_between(exact: Exact, graph: VectorGraph, transform: DAffine2, deltas: Seq<DVec2>, i: int, handle: DVec2)
    requires
        exact.wf(),
        0 <= i < graph.segments.len(),
        graph.segments[i].handles == (BezierHandles::Quadratic { handle }),
    ensures
        ({
            let (start, end) = (graph.segments[i].start as int, graph.segments[i].end as int);
            &&& jittered(graph, transform, deltas).segments[i].handles matches BezierHandles::Quadratic { handle: found }
            &&& exact.of(found).minus(exact.of(transformed_point(transform, handle))).scaled(2 as real) == exact.of(deltas[start]).plus(
                exact.of(deltas[end]),
            )
        }),
{
    assert(exact.is_number(splat_of(2), (2 as i32) as real));
    let (start, end) = (graph.segments[i].start as int, graph.segments[i].end as int);
    let (a, b) = (exact.of(deltas[start]), exact.of(deltas[end]));
    lemma_quotient(a.x + b.x, 2 as real);
    lemma_quotient(a.y + b.y, 2 as real);
}

/// An anchor that is not rounded comes back to where it was, and so do its handles.
pub proof fn anchors_that_are_not_rounded_stay(
    exact: Exact,
    path: SubpathView,
    transform: DAffine2,
    measures: Seq<CornerMeasure>,
    rounding: Rounding,
    id: PointId,
    i: int,
)
    requires
        exact.wf(),
        (exact.frame)(transform).determinant() != 0 as real,
        path.groups.len() >= 3,
        0 <= i < path.groups.len(),
        stays(path.placed(transform), i, measures[i], rounding),
    ensures
        ({
            let found = round_path(path, transform, measures, rounding, id).0;
            let place = i + rounded_count(path.placed(transform), measures, rounding, i as nat);
            &&& place < found.groups.len()
            &&& found.groups[place].id == path.groups[i].id
            &&& exact.of(found.groups[place].anchor) == exact.of(path.groups[i].anchor)
            &&& path.groups[i].in_handle matches Some(handle) ==> (found.groups[place].in_handle matches Some(back) && exact.of(back)
                == exact.of(handle))
            &&& path.groups[i].out_handle matches Some(handle) ==> (found.groups[place].out_handle matches Some(back) && exact.of(back)
                == exact.of(handle))
            &&& found.closed == path.closed
        }),
{
    let placed = path.placed(transform);
    rounded_anchors_keep_their_order(placed, measures, rounding, id, path.groups.len(), i);
    let group = path.groups[i];
    lemma_there_and_back(exact, transform, group.anchor);
    if let Some(handle) = group.in_handle {
        lemma_there_and_back(exact, transform, handle);
    }
    if let Some(handle) = group.out_handle {
        lemma_there_and_back(exact, transform, handle);
    }
}

/// A spline passes through its points smoothly: the handles on both sides of a point are at the same distance from it, on
/// both sides.
pub proof fn a_spline_mirrors_its_handles(exact: Exact, graph: VectorGraph, stroke: SplineStroke, ids: Seq<u64>, used: int, i: int)
    requires
        exact.wf(),
        stroke.wf(),
        0 <= i < stroke.segment_count(),
        i + 1 < stroke.segment_count() || stroke.comes_back(),
    ensures
        ({
            let segments = spline_segments(graph, stroke, ids, used, stroke.segment_count());
            let next = if i + 1 == stroke.segment_count() {
                0
            } else {
                i + 1
            };
            let place = exact.of(stroke.positions@[next]);
            exact.of(segments[next].handles->handle_start).minus(place) == place.minus(exact.of(segments[i].handles->handle_end))
        }),
{
    spline_is_smooth(graph, stroke, ids, used, i);
    assert(exact.is_number(splat_of(2), (2 as i32) as real));
}

/// The two ways to count the progress along a path make up the whole of it.
pub proof fn progress_and_its_reverse_make_up_the_whole(exact: Exact, progress: DVec2, count: usize)
    requires
        exact.wf(),
    ensures
        exact.of(held_progress(progress, count, false)).plus(exact.of(held_progress(progress, count, true))) == Pair::both(count as real),
{
    assert(exact.is_number(number_of(count as u64), (count as u64) as real));
}

/// Colors are spread evenly over the rows, from the first at the start of the gradient to the last at its end.
pub proof fn colors_are_spread_evenly(exact: Exact, index: int, length: nat)
    requires
        exact.wf(),
        1 < length <= u64::MAX,
        0 <= index < length,
    ensures
        exact.of(color_factor(index, length, 0)).scaled((length - 1) as real) == Pair::both(index as real),
        index == 0 ==> exact.is_number(color_factor(index, length, 0), 0 as real),
        index == length - 1 ==> exact.is_number(color_factor(index, length, 0), 1 as real),
{
    let (n, i) = ((length - 1) as real, index as real);
    assert(exact.is_number(number_of((length - 1) as u64), n));
    assert(exact.is_number(number_of(index as u64), i));
    lemma_quotient(i, n);
    let f = exact.of(color_factor(index, length, 0)).x;
    assert((0 as real) * n == 0 as real && (1 as real) * n == n);
    if index == 0 {
        lemma_cancel(f, 0 as real, n);
    }
    if index == length - 1 {
        lemma_cancel(f, 1 as real, n);
    }
}

/// A gradient that is fitted to a transform is placed after it.
pub proof fn a_fitted_gradient_follows_the_transform(exact: Exact, gradient: GradientView, transform: DAffine2, p: DVec2)
    requires
        exact.wf(),
    ensures
        fitted_fill(FillView::Gradient(gradient), transform) matches FillView::Gradient(fitted) && exact.of(
            transformed_point(fitted.transform, p),
        ) == exact.of(transformed_point(gradient.transform, transformed_point(transform, p))),
{
    lemma_after((exact.frame)(gradient.transform), (exact.frame)(transform), exact.of(p));
}

/// The measure of a corner fits the directions of its edges: the square of the sine of half the angle between them is half
/// of one less their cosine.
pub proof fn a_corner_is_measured_between_its_edges(
    exact: Exact,
    path: SubpathView,
    i: int,
    measure: CornerMeasure,
    to_previous: Pair,
    to_next: Pair,
    lengths: (real, real),
)
    requires
        exact.wf(),
        is_measure_of(path, i, measure),
        exact.of(path.groups[path.previous(i)].anchor).minus(exact.of(path.groups[i].anchor)).points_along(to_previous, lengths.0),
        exact.of(path.groups[path.next(i)].anchor).minus(exact.of(path.groups[i].anchor)).points_along(to_next, lengths.1),
    ensures
        ({
            let sine = exact.of(measure.half_sine).x;
            2 as real * (sine * sine) == 1 as real - to_previous.dot(to_next)
        }),
        (exact.cos)(exact.of(corner_angle(measure)).x) == to_previous.dot(to_next),
{
    let (previous, corner, next) = (path.groups[path.previous(i)].anchor, path.groups[i].anchor, path.groups[path.next(i)].anchor);
    let (p, c) = (exact.of(previous), exact.of(corner));
    lemma_opposite(p.minus(c), to_previous, lengths.0);
    assert(exact.of(difference(corner, previous)) == p.minus(c).opposite());
    lemma_unit(exact, difference(corner, previous), to_previous.opposite(), lengths.0);
    lemma_unit(exact, difference(next, corner), to_next, lengths.1);
    let (into, out) = (unit_or_axis(difference(corner, previous)), unit_or_axis(difference(next, corner)));
    let one = 1 as real;
    assert(exact.of(into).scaled(one) == exact.of(into));
    assert(exact.of(out).scaled(one) == exact.of(out));
    lemma_length(exact, into, exact.of(into), one);
    lemma_length(exact, out, exact.of(out), one);
    assert(angles_between(into, out).contains(measure.turn));
    let turn = exact.of(measure.turn).x;
    lemma_less(to_previous.x, to_previous.x, to_next.x);
    lemma_less(to_previous.y, to_previous.y, to_next.y);
    assert(one * one == one);
    let cosine = (exact.cos)(turn);
    assert(cosine * one == cosine);
    assert(cosine == -to_previous.dot(to_next));
    lemma_opposite_angle(exact, turn);
    lemma_supplement(exact, without_sign(turn));
    let angle = exact.of(corner_angle(measure)).x;
    assert(angle == exact.of(pi()).x - without_sign(turn));
    lemma_half_angle(exact, angle);
    let direction = choose|direction: DVec2| #[trigger]
        directions_of(quotient(difference(pi(), absolute_of(measure.turn)), splat_of(2))).contains(direction) && measure.half_sine == y_of(
            direction,
        );
    assert(exact.is_number(splat_of(2), (2 as i32) as real));
    let half = quotient(difference(pi(), absolute_of(measure.turn)), splat_of(2));
    assert(exact.of(half).x == angle / 2 as real);
    assert(exact.of(direction).y == (exact.sin)(angle / 2 as real));
}

/// A number from zero to one that is held between these is itself.
proof fn lemma_held(exact: Exact, t: DVec2)
    requires
        exact.wf(),
        exact.has_order(),
        0 as real <= exact.of(t).x <= 1 as real,
        0 as real <= exact.of(t).y <= 1 as real,
    ensures
        exact.of(lower_of(upper_of(t, zero()), splat_of(1))) == exact.of(t),
{
    assert(exact.is_number(zero(), (0 as i32) as real));
    assert(exact.is_number(splat_of(1), (1 as i32) as real));
    assert(exact.is_number(x_of(zero()), 0 as real));
    assert(exact.is_number(y_of(zero()), 0 as real));
    assert(exact.is_number(x_of(splat_of(1)), 1 as real));
    assert(exact.is_number(y_of(splat_of(1)), 1 as real));
    let raised = upper_of(t, zero());
    assert(larger_of(x_of(t), x_of(zero())) == x_of(t));
    assert(larger_of(y_of(t), y_of(zero())) == y_of(t));
    assert(exact.of(raised) == exact.of(t));
    assert(smaller_of(x_of(raised), x_of(splat_of(1))) == x_of(raised));
    assert(smaller_of(y_of(raised), y_of(splat_of(1))) == y_of(raised));
}

/// A point of the area is warped by where in the area the transform shows it: at some share of its width and of its height.
pub proof fn points_are_warped_by_their_place_in_the_area(
    exact: Exact,
    transform: DAffine2,
    bounds: (DVec2, DVec2),
    quad: Quad,
    position: DVec2,
    t: DVec2,
)
    requires
        exact.wf(),
        exact.has_order(),
        exact.of(bounds.0).x < exact.of(bounds.1).x,
        exact.of(bounds.0).y < exact.of(bounds.1).y,
        0 as real <= exact.of(t).x <= 1 as real,
        0 as real <= exact.of(t).y <= 1 as real,
        exact.of(transformed_point(transform, position)).minus(exact.of(bounds.0)) == exact.of(t).times(
            exact.of(bounds.1).minus(exact.of(bounds.0)),
        ),
    ensures
        exact.of(warp_position(transform, bounds, quad)(position)) == exact.of(bilinear(t, quad)),
{
    let world = transformed_point(transform, position);
    let size = exact.of(bounds.1).minus(exact.of(bounds.0));
    let found = quotient(difference(world, bounds.0), difference(bounds.1, bounds.0));
    lemma_divided_product(exact.of(t).x, size.x);
    lemma_divided_product(exact.of(t).y, size.y);
    assert(exact.of(found) == exact.of(t));
    lemma_held(exact, found);
    lemma_bilinear(exact, t, quad);
    lemma_bilinear(exact, lower_of(upper_of(found, zero()), splat_of(1)), quad);
}

/// The corners of the box of a shape are warped to the first four points of the target, as the target's transform shows
/// them: the lowest corner to the first, the one with the highest abscissa to the second, and so around.
pub proof fn the_box_is_warped_to_the_target(
    exact: Exact,
    transform: DAffine2,
    bounds: (DVec2, DVec2),
    target: Seq<DVec2>,
    target_transform: DAffine2,
    position: DVec2,
)
    requires
        exact.wf(),
        exact.has_order(),
        exact.of(bounds.0).x < exact.of(bounds.1).x,
        exact.of(bounds.0).y < exact.of(bounds.1).y,
        target.len() >= 4,
    ensures
        ({
            let (low, high) = (exact.of(bounds.0), exact.of(bounds.1));
            let seen = exact.of(transformed_point(transform, position));
            let found = exact.of(warp_position(transform, bounds, warp_corners(target, target_transform, bounds))(position));
            &&& seen == low ==> found == exact.of(transformed_point(target_transform, target[0]))
            &&& seen == (Pair { x: high.x, y: low.y }) ==> found == exact.of(transformed_point(target_transform, target[1]))
            &&& seen == high ==> found == exact.of(transformed_point(target_transform, target[2]))
            &&& seen == (Pair { x: low.x, y: high.y }) ==> found == exact.of(transformed_point(target_transform, target[3]))
        }),
{
    let (low, high) = (exact.of(bounds.0), exact.of(bounds.1));
    let seen = exact.of(transformed_point(transform, position));
    let quad = warp_corners(target, target_transform, bounds);
    let t = mixed_of(
        splat_of(if seen.x == low.x { 0 } else { 1 }),
        splat_of(if seen.y == low.y { 0 } else { 1 }),
    );
    assert(exact.is_number(splat_of(0), (0 as i32) as real));
    assert(exact.is_number(splat_of(1), (1 as i32) as real));
    corners_are_warped_to_corners(exact, t, quad);
    let size = high.minus(low);
    assert((0 as real) * size.x == 0 as real && (1 as real) * size.x == size.x);
    assert((0 as real) * size.y == 0 as real && (1 as real) * size.y == size.y);
    if (seen.x == low.x || seen.x == high.x) && (seen.y == low.y || seen.y == high.y) {
        points_are_warped_by_their_place_in_the_area(exact, transform, bounds, quad, position, t);
    }
}

/// A path that was sampled under a transform and is taken back is where it was sampled when it is placed again.
pub proof fn sampled_points_are_taken_back(exact: Exact, transform: DAffine2, sampled: Vec<PathElement>, i: int)
    requires
        exact.wf(),
        (exact.frame)(transform).determinant() != 0 as real,
        0 <= i < sampled@.len(),
    ensures
        taking_back(transform)(Some(sampled)) matches Some(path) && path.len() == sampled@.len() && match (sampled@[i], path[i]) {
            (PathElement::MoveTo(p), PathElement::MoveTo(q)) => (exact.frame)(transform).take(exact.point(q)) == exact.point(p),
            (PathElement::LineTo(p), PathElement::LineTo(q)) => (exact.frame)(transform).take(exact.point(q)) == exact.point(p),
            (PathElement::QuadTo(p, s), PathElement::QuadTo(q, r)) => {
                &&& (exact.frame)(transform).take(exact.point(q)) == exact.point(p)
                &&& (exact.frame)(transform).take(exact.point(r)) == exact.point(s)
            },
            (PathElement::CurveTo(p, s, t), PathElement::CurveTo(q, r, u)) => {
                &&& (exact.frame)(transform).take(exact.point(q)) == exact.point(p)
                &&& (exact.frame)(transform).take(exact.point(r)) == exact.point(s)
                &&& (exact.frame)(transform).take(exact.point(u)) == exact.point(t)
            },
            (PathElement::ClosePath, PathElement::ClosePath) => true,
            _ => false,
        },
{
    match sampled@[i] {
        PathElement::MoveTo(p) => lemma_image_back(exact, transform, p),
        PathElement::LineTo(p) => lemma_image_back(exact, transform, p),
        PathElement::QuadTo(p, s) => {
            lemma_image_back(exact, transform, p);
            lemma_image_back(exact, transform, s);
        },
        PathElement::CurveTo(p, s, t) => {
            lemma_image_back(exact, transform, p);
            lemma_image_back(exact, transform, s);
            lemma_image_back(exact, transform, t);
        },
        PathElement::ClosePath => {},
    }
}

proof fn lemma_image_back(exact: Exact, transform: DAffine2, p: Point)
    requires
        exact.wf(),
        (exact.frame)(transform).determinant() != 0 as real,
    ensures
        (exact.frame)(transform).take(exact.point(affine_image(affine_inverse(transform), p))) == exact.point(p),
{
    let (there, back) = ((exact.frame)(transform), (exact.frame)(affine_inverse(transform)));
    lemma_after(there, back, exact.point(p));
    lemma_still(exact.point(p));
}

/// Colors that repeat are the same after each round, which goes over the whole gradient.
pub proof fn repeated_colors_come_back(exact: Exact, index: u64, length: nat, repeat_every: u32)
    requires
        exact.wf(),
        repeat_every > 1,
        index + repeat_every <= u64::MAX,
    ensures
        exact.of(color_factor(index + repeat_every, length, repeat_every)) == exact.of(color_factor(index as int, length, repeat_every)),
        index % (repeat_every as u64) == 0 ==> exact.is_number(color_factor(index as int, length, repeat_every), 0 as real),
        index % (repeat_every as u64) == repeat_every - 1 ==> exact.is_number(color_factor(index as int, length, repeat_every), 1 as real),
        exact.of(color_factor(index as int, length, repeat_every)).scaled((repeat_every - 1) as real) == Pair::both(
            (index % (repeat_every as u64)) as real,
        ),
{
    let m = repeat_every as u64;
    let later = (index + repeat_every) as u64;
    let n = (m - 1) as u64;
    let rest = index % m;
    assert(later % m == rest) by {
        vstd::arithmetic::div_mod::lemma_mod_add_multiples_vanish(index as int, m as int);
    }
    assert(exact.is_number(number_of(n), n as real));
    assert(exact.is_number(remainder_of(number_of(index), number_of(m)), rest as real));
    assert(exact.is_number(remainder_of(number_of(later), number_of(m)), rest as real));
    lemma_quotient(rest as real, n as real);
    let f = exact.of(color_factor(index as int, length, repeat_every)).x;
    assert((0 as real) * (n as real) == 0 as real && (1 as real) * (n as real) == n as real);
    if rest == 0 {
        lemma_cancel(f, 0 as real, n as real);
    }
    if rest == n {
        lemma_cancel(f, 1 as real, n as real);
    }
}

/// Lengths add up: those of two paths together are the lengths of the one and of the other.
pub proof fn lengths_add_up(exact: Exact, first: Seq<DVec2>, second: Seq<DVec2>)
    requires
        exact.wf(),
    ensures
        exact.of(sum_of(first + second)) == exact.of(sum_of(first)).plus(exact.of(sum_of(second))),
{
    lemma_first_lengths(exact, first, second, second.len());
}

proof fn lemma_first_lengths(exact: Exact, first: Seq<DVec2>, second: Seq<DVec2>, n: nat)
    requires
        exact.wf(),
        n <= second.len(),
    ensures
        exact.of(sum_of_first(first + second, first.len() + n)) == exact.of(sum_of(first)).plus(exact.of(sum_of_first(second, n))),
    decreases n,
{
    if n == 0 {
        assert(exact.is_number(zero(), (0 as i32) as real));
        lemma_same_lengths(first, first + second, first.len());
    } else {
        lemma_first_lengths(exact, first, second, (n - 1) as nat);
        assert((first + second)[first.len() + n - 1] == second[n - 1]);
    }
}

proof fn lemma_same_lengths(first: Seq<DVec2>, more: Seq<DVec2>, n: nat)
    requires
        n <= first.len(),
        n <= more.len(),
        forall|i: int| 0 <= i < n ==> #[trigger] first[i] == more[i],
    ensures
        sum_of_first(first, n) == sum_of_first(more, n),
    decreases n,
{
    if n > 0 {
        lemma_same_lengths(first, more, (n - 1) as nat);
        assert(first[n - 1] == more[n - 1]);
    }
}

/// The tangent of a path that is gone through in reverse is measured from the opposite direction.
pub proof fn reversed_tangents_are_measured_from_the_opposite(exact: Exact)
    requires
        exact.wf(),
    ensures
        exact.of(measured_from(true)) == exact.of(measured_from(false)).opposite(),
        exact.of(measured_from(false)) == (Pair { x: 1 as real, y: 0 as real }),
{
    assert(exact.of(vector_of(1, 0)) == (Pair { x: (1 as i32) as real, y: (0 as i32) as real }));
}

} // verus!
