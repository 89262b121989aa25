//! Where corners are cut.
use glam::{DAffine2, DVec2};
use vstd::prelude::*;

use crate::bevel::{with_joins, BevelCut, Beveling};
use crate::chamfer::{
    best_of, coarse_distance, coarse_places, corner_cut, fine_distance, fine_places, first_too_long, is_too_long, segment_of_curve, split_share,
    stop_distance, COARSE_STEPS, FINE_STEPS,
};
use crate::exact::{lemma_cancel, lemma_factors, lemma_less, lemma_quotient, lemma_signs, lemma_there_and_back, lemma_times, Exact, Pair};
use crate::geometry::{
    absolute_of, determinant_of, difference, is_less, is_zero, largest, number_of, quotient, splat_of, transformed_point, way_back_of, zero,
};
use crate::ids::SegmentId;
use crate::paths::{affine_image, point_of, position_of};
use crate::sequences::lemma_first_index;
use crate::vector_data::{Bezier, BezierHandles, Segment};

verus! {

/// The coarse distances go evenly from none to the longest split.
pub proof fn coarse_distances_are_even(exact: Exact, max_split: DVec2, step: u64, longest: real)
    requires
        exact.wf(),
        exact.is_number(max_split, longest),
        step <= COARSE_STEPS,
    ensures
        exact.of(coarse_distance(max_split, step)).scaled(COARSE_STEPS as real) == Pair::both(longest * (step as real)),
        step == 0 ==> exact.of(coarse_distance(max_split, step)).is_zero(),
        step == COARSE_STEPS ==> exact.is_number(coarse_distance(max_split, step), longest),
{
    let (n, i) = (COARSE_STEPS as real, step as real);
    assert(exact.is_number(number_of(step), i));
    assert(exact.is_number(number_of(COARSE_STEPS), n));
    lemma_quotient(i, n);
    lemma_factors(longest, i / n, n);
    lemma_times((i / n) * n, i, longest);
    let f = exact.of(coarse_distance(max_split, step)).x;
    assert(f == longest * (i / n));
    if step == 0 {
        assert(longest * (0 as real) == 0 as real) by (nonlinear_arith);
        lemma_cancel(f, 0 as real, n);
    }
    if step == COARSE_STEPS {
        lemma_cancel(f, longest, n);
    }
}

/// The fine distances go evenly from one coarse distance to the next.
pub proof fn fine_distances_are_between_coarse_ones(exact: Exact, max_split: DVec2, step: u64, fine_step: u64)
    requires
        exact.wf(),
        0 < step <= COARSE_STEPS,
        fine_step <= FINE_STEPS,
    ensures
        ({
            let before = exact.of(coarse_distance(max_split, (step - 1) as u64));
            let after = exact.of(coarse_distance(max_split, step));
            let found = exact.of(fine_distance(max_split, step, fine_step));
            &&& found.minus(before).scaled(FINE_STEPS as real) == after.minus(before).scaled(fine_step as real)
            &&& fine_step == 0 ==> found == before
            &&& fine_step == FINE_STEPS ==> found == after
        }),
{
    let before = exact.of(coarse_distance(max_split, (step - 1) as u64));
    let after = exact.of(coarse_distance(max_split, step));
    let found = exact.of(fine_distance(max_split, step, fine_step));
    let (n, i) = (FINE_STEPS as real, fine_step as real);
    assert(exact.is_number(number_of(fine_step), i));
    assert(exact.is_number(number_of(FINE_STEPS), n));
    let d = after.minus(before);
    lemma_quotient(i, n);
    lemma_factors(d.x, i / n, n);
    lemma_factors(d.y, i / n, n);
    lemma_times((i / n) * n, i, d.x);
    lemma_times((i / n) * n, i, d.y);
    assert(found.minus(before).x == d.x * (i / n));
    assert(found.minus(before).y == d.y * (i / n));
    if fine_step == 0 {
        assert(d.x * (0 as real) == 0 as real && d.y * (0 as real) == 0 as real) by (nonlinear_arith);
        lemma_cancel(found.x - before.x, 0 as real, n);
        lemma_cancel(found.y - before.y, 0 as real, n);
    }
    if fine_step == FINE_STEPS {
        lemma_cancel(found.x - before.x, d.x, n);
        lemma_cancel(found.y - before.y, d.y, n);
    }
}

/// The share of a length that a distance is, as far as it fits.
proof fn lemma_share(exact: Exact, distance: DVec2, length: DVec2, d: real, l: real)
    requires
        exact.wf(),
        exact.is_number(distance, d),
        exact.is_number(length, l),
        l > 0 as real,
    ensures
        exact.of(split_share(distance, length)).x == exact.of(split_share(distance, length)).y,
        0 as real <= d <= l ==> exact.of(split_share(distance, length)).x * l == d,
        d > l ==> exact.is_number(split_share(distance, length), 1 as real),
        d < 0 as real ==> exact.is_number(split_share(distance, length), 0 as real),
{
    let q = exact.of(quotient(distance, length)).x;
    assert(q == d / l);
    lemma_quotient(d, l);
    assert(exact.is_number(splat_of(1), (1 as i32) as real));
    assert(exact.is_number(zero(), (0 as i32) as real));
    lemma_signs(q, l);
    lemma_signs(q - 1 as real, l);
    lemma_less(q, 1 as real, l);
    assert((1 as real) * l == l) by (nonlinear_arith);
}

/// A cut takes the share of a segment that its distance is of the segment's length, all of it where it is longer.
pub proof fn a_share_is_of_the_length(exact: Exact, distance: DVec2, length: DVec2, d: real, l: real)
    requires
        exact.wf(),
        exact.is_number(distance, d),
        exact.is_number(length, l),
        l > 0 as real,
    ensures
        0 as real <= d <= l ==> exact.of(split_share(distance, length)).x * l == d,
        d > l ==> exact.is_number(split_share(distance, length), 1 as real),
{
    lemma_share(exact, distance, length, d, l);
}

/// A fine cut is as long on both segments: on the first counted from its end, on the second from its start.
pub proof fn fine_cuts_are_as_long_on_both_segments(
    exact: Exact,
    distance: DVec2,
    first_length: DVec2,
    second_length: DVec2,
    d: real,
    lengths: (real, real),
)
    requires
        exact.wf(),
        exact.is_number(distance, d),
        exact.is_number(first_length, lengths.0),
        exact.is_number(second_length, lengths.1),
        0 as real <= d <= lengths.0,
        d <= lengths.1,
        lengths.0 > 0 as real,
        lengths.1 > 0 as real,
    ensures
        ({
            let (first, second) = fine_places(distance, first_length, second_length);
            &&& (1 as real - exact.of(first).x) * lengths.0 == d
            &&& exact.of(second).x * lengths.1 == d
        }),
{
    lemma_share(exact, distance, first_length, d, lengths.0);
    lemma_share(exact, distance, second_length, d, lengths.1);
    assert(exact.is_number(splat_of(1), (1 as i32) as real));
    let share = exact.of(split_share(distance, first_length)).x;
    let (first, second) = fine_places(distance, first_length, second_length);
    assert(exact.of(first).x == 1 as real - share);
}

/// Segments of the same length are cut at the same distance: the place on the first, counted from its end, is that on the
/// second, counted from its start.
pub proof fn cuts_are_alike_on_segments_of_one_length(exact: Exact, distance: DVec2, length: DVec2)
    requires
        exact.wf(),
    ensures
        ({
            let (first, second) = coarse_places(distance, length, length);
            exact.of(first).plus(exact.of(second)) == Pair::both(1 as real)
        }),
        ({
            let (first, second) = fine_places(distance, length, length);
            exact.of(first).plus(exact.of(second)) == Pair::both(1 as real)
        }),
{
    assert(exact.is_number(splat_of(1), (1 as i32) as real));
}

/// The distance that comes nearest to the bevel: no distance that was looked at misses its length by less.
pub proof fn the_best_distance_misses_least(bevel_length: DVec2, max_split: DVec2, lengths: Seq<DVec2>, n: nat)
    requires
        n <= lengths.len(),
        n <= u64::MAX,
    ensures
        ({
            let found = best_of(bevel_length, max_split, lengths, n);
            &&& forall|j: int|
                0 <= j < n ==> !is_less(absolute_of(difference(bevel_length, #[trigger] lengths[j])), found.0)
            &&& found == (largest(), zero()) || exists|k: int|
                {
                    &&& 0 <= k < n
                    &&& found.0 == absolute_of(difference(bevel_length, #[trigger] lengths[k]))
                    &&& found.1 == coarse_distance(max_split, k as u64)
                }
        }),
    decreases n,
{
    if n > 0 {
        let i = n - 1;
        the_best_distance_misses_least(bevel_length, max_split, lengths, i as nat);
        let before = best_of(bevel_length, max_split, lengths, i as nat);
        let found = best_of(bevel_length, max_split, lengths, n);
        let miss = absolute_of(difference(bevel_length, lengths[i]));
        assert forall|j: int| 0 <= j < n implies !is_less(absolute_of(difference(bevel_length, #[trigger] lengths[j])), found.0) by {
            if j < i {
                assert(!is_less(absolute_of(difference(bevel_length, lengths[j])), before.0));
            }
        }
        if is_less(miss, before.0) {
            assert(found.0 == absolute_of(difference(bevel_length, lengths[i])));
        } else if found != (largest(), zero()) {
            let k = choose|k: int|
                {
                    &&& 0 <= k < i
                    &&& before.0 == absolute_of(difference(bevel_length, #[trigger] lengths[k]))
                    &&& before.1 == coarse_distance(max_split, k as u64)
                };
            assert(found.0 == absolute_of(difference(bevel_length, lengths[k])));
        }
    }
}

/// Where a cut stops: at the first coarse distance whose cut is longer than the bevel, or between the one before and it, at
/// the first fine distance whose cut is.
pub proof fn a_cut_stops_where_it_is_too_long(bevel_length: DVec2, max_split: DVec2, lengths: Seq<DVec2>, fine_lengths: Seq<DVec2>, k: int)
    requires
        0 <= k < lengths.len(),
        is_less(difference(bevel_length, lengths[k]), zero()),
        forall|j: int| 0 <= j < k ==> !is_less(difference(bevel_length, #[trigger] lengths[j]), zero()),
    ensures
        k == 0 ==> stop_distance(bevel_length, max_split, lengths, fine_lengths) == coarse_distance(max_split, 0),
        (forall|j: int| 0 <= j < fine_lengths.len() ==> !is_less(difference(bevel_length, #[trigger] fine_lengths[j]), zero()))
            ==> stop_distance(bevel_length, max_split, lengths, fine_lengths) == coarse_distance(max_split, k as u64),
        forall|i: int|
            {
                &&& k > 0
                &&& 0 <= i < fine_lengths.len()
                &&& is_less(difference(bevel_length, #[trigger] fine_lengths[i]), zero())
                &&& forall|j: int| 0 <= j < i ==> !is_less(difference(bevel_length, #[trigger] fine_lengths[j]), zero())
            } ==> stop_distance(bevel_length, max_split, lengths, fine_lengths) == fine_distance(max_split, k as u64, (i + 1) as u64),
{
    let too_long = is_too_long(bevel_length);
    lemma_first_index(lengths, too_long);
    lemma_first_index(fine_lengths, too_long);
    assert(too_long(lengths[k]));
    let found = first_too_long(bevel_length, lengths)->0;
    if found < k {
        assert(too_long(lengths[found]));
    } else if k < found {
        assert(!too_long(lengths[k]));
    }
    assert forall|i: int|
        {
            &&& k > 0
            &&& 0 <= i < fine_lengths.len()
            &&& is_less(difference(bevel_length, #[trigger] fine_lengths[i]), zero())
            &&& forall|j: int| 0 <= j < i ==> !is_less(difference(bevel_length, #[trigger] fine_lengths[j]), zero())
        } implies stop_distance(bevel_length, max_split, lengths, fine_lengths) == fine_distance(max_split, k as u64, (i + 1) as u64) by {
        assert(too_long(fine_lengths[i]));
        let fine = first_too_long(bevel_length, fine_lengths)->0;
        if fine < i {
            assert(too_long(fine_lengths[fine]));
        } else if i < fine {
            assert(!too_long(fine_lengths[i]));
        }
    }
}

/// Whether the handles of a curve are at the same places as those of another.
pub open spec fn are_handles_at(exact: Exact, a: BezierHandles, b: BezierHandles) -> bool {
    match (a, b) {
        (BezierHandles::Linear, BezierHandles::Linear) => true,
        (BezierHandles::Quadratic { handle: p }, BezierHandles::Quadratic { handle: q }) => exact.of(p) == exact.of(q),
        (
            BezierHandles::Cubic { handle_start: p, handle_end: q },
            BezierHandles::Cubic { handle_start: r, handle_end: s },
        ) => exact.of(p) == exact.of(r) && exact.of(q) == exact.of(s),
        _ => false,
    }
}

/// A point of a curve, through the transform and back.
proof fn lemma_point_and_back(exact: Exact, transform: DAffine2, p: DVec2)
    requires
        exact.wf(),
        (exact.frame)(transform).determinant() != 0 as real,
    ensures
        exact.of(transformed_point(way_back_of(transform), position_of(affine_image(transform, point_of(p))))) == exact.of(p),
        exact.of(
            transformed_point(way_back_of(transform), position_of(point_of(position_of(affine_image(transform, point_of(p)))))),
        ) == exact.of(p),
{
    assert(!is_zero(determinant_of(transform))) by {
        assert(exact.is_number(determinant_of(transform), (exact.frame)(transform).determinant()));
    }
    lemma_there_and_back(exact, transform, p);
    let seen = affine_image(transform, point_of(p));
    assert(exact.point(point_of(p)) == exact.of(p));
    assert(exact.point(seen) == (exact.frame)(transform).take(exact.of(p)));
    let again = point_of(position_of(seen));
    assert(exact.point(again) == exact.of(position_of(seen)));
}

/// A corner that is not cut stays: the curves end and start where they did, with the handles that they had.
pub proof fn an_uncut_corner_stays(exact: Exact, first: Bezier, second: Bezier, transform: DAffine2)
    requires
        exact.wf(),
        (exact.frame)(transform).determinant() != 0 as real,
    ensures
        ({
            let cut = corner_cut(first, second, transform, (false, false), (None, None));
            &&& !cut.cuts_end
            &&& !cut.cuts_start
            &&& exact.of(cut.end) == exact.of(first.end)
            &&& exact.of(cut.start) == exact.of(second.start)
            &&& are_handles_at(exact, cut.handles, first.handles)
            &&& are_handles_at(exact, cut.next_handles, second.handles)
        }),
{
    lemma_point_and_back(exact, transform, first.end);
    lemma_point_and_back(exact, transform, second.start);
    lemma_handles_and_back(exact, transform, first.handles);
    lemma_handles_and_back(exact, transform, second.handles);
}

proof fn lemma_handles_and_back(exact: Exact, transform: DAffine2, handles: BezierHandles)
    requires
        exact.wf(),
        (exact.frame)(transform).determinant() != 0 as real,
    ensures
        match handles {
            BezierHandles::Linear => true,
            BezierHandles::Quadratic { handle } => exact.of(
                transformed_point(way_back_of(transform), position_of(affine_image(transform, point_of(handle)))),
            ) == exact.of(handle),
            BezierHandles::Cubic { handle_start, handle_end } => {
                &&& exact.of(
                    transformed_point(way_back_of(transform), position_of(affine_image(transform, point_of(handle_start)))),
                ) == exact.of(handle_start)
                &&& exact.of(
                    transformed_point(way_back_of(transform), position_of(affine_image(transform, point_of(handle_end)))),
                ) == exact.of(handle_end)
            },
        },
{
    match handles {
        BezierHandles::Linear => {},
        BezierHandles::Quadratic { handle } => lemma_point_and_back(exact, transform, handle),
        BezierHandles::Cubic { handle_start, handle_end } => {
            lemma_point_and_back(exact, transform, handle_start);
            lemma_point_and_back(exact, transform, handle_end);
        },
    }
}

/// A corner between straight segments that is not cut stays, too, and a segment that is straight comes out without handles.
pub proof fn an_uncut_straight_corner_stays(exact: Exact, first: Bezier, second: Bezier, transform: DAffine2)
    requires
        exact.wf(),
        (exact.frame)(transform).determinant() != 0 as real,
    ensures
        ({
            let cut = corner_cut(first, second, transform, (true, true), (None, None));
            &&& exact.of(cut.end) == exact.of(first.end)
            &&& exact.of(cut.start) == exact.of(second.start)
            &&& cut.handles is Linear
            &&& cut.next_handles is Linear
        }),
{
    lemma_point_and_back(exact, transform, first.end);
    lemma_point_and_back(exact, transform, second.start);
}

/// A corner that is cut has its new points where the cuts are, as the transform shows them: at the end of what is left of
/// the first segment, whose start stays out of it, and at the start of what is left of the second.
pub proof fn a_cut_corner_ends_at_the_cuts(
    exact: Exact,
    first: Bezier,
    second: Bezier,
    transform: DAffine2,
    linear: (bool, bool),
    places: (DVec2, DVec2),
)
    requires
        exact.wf(),
        (exact.frame)(transform).determinant() != 0 as real,
    ensures
        ({
            let cut = corner_cut(first, second, transform, linear, (Some(places.0), Some(places.1)));
            let left = segment_of_curve(first, transform, linear.0).reverse().spec_part(places.0, splat_of(1));
            let right = segment_of_curve(second, transform, linear.1).spec_part(places.1, splat_of(1));
            &&& cut.cuts_end
            &&& cut.cuts_start
            &&& exact.of(transformed_point(transform, cut.end)) == exact.point(left.start())
            &&& exact.of(transformed_point(transform, cut.start)) == exact.point(right.start())
        }),
{
    assert(!is_zero(determinant_of(transform))) by {
        assert(exact.is_number(determinant_of(transform), (exact.frame)(transform).determinant()));
    }
    let left = segment_of_curve(first, transform, linear.0).reverse().spec_part(places.0, splat_of(1));
    let right = segment_of_curve(second, transform, linear.1).spec_part(places.1, splat_of(1));
    assert(left.reverse().end() == left.start());
    lemma_there_and_back(exact, transform, position_of(left.start()));
    lemma_there_and_back(exact, transform, position_of(right.start()));
}

/// A corner between two segments that is cut at both is opened: the first segment ends where it is cut, the second starts
/// where it is, the two points are joined, and all else stays.
pub proof fn a_cut_opens_the_corner(bevel: Beveling, first: int, second: int, cut: BevelCut)
    requires
        bevel.wf(),
        bevel.can_cut(first, second),
        bevel.segments[first].end == bevel.segments[second].start,
        bevel.connected[bevel.segments[first].end as int] == 2,
        cut.cuts_end,
        cut.cuts_start,
    ensures
        ({
            let done = bevel.cut(first, second, cut);
            let (end, start) = (done.segments[first].end as int, done.segments[second].start as int);
            &&& 0 <= end < done.points.len()
            &&& 0 <= start < done.points.len()
            &&& end != start
            &&& done.points[end].position == cut.end
            &&& done.points[start].position == cut.start
            &&& done.joins.len() == bevel.joins.len() + 1
            &&& done.joins.last() == (end, start)
            &&& done.points.len() == bevel.points.len() + 1
            &&& done.segments[first] == (Segment { end: end as usize, handles: cut.handles, ..bevel.segments[first] })
            &&& done.segments[second] == (Segment { start: start as usize, handles: cut.next_handles, ..bevel.segments[second] })
            &&& forall|i: int|
                0 <= i < bevel.segments.len() && i != first && i != second ==> #[trigger] done.segments[i] == bevel.segments[i]
            &&& forall|i: int|
                0 <= i < bevel.points.len() && i != bevel.segments[first].end ==> #[trigger] done.points[i] == bevel.points[i]
            &&& done.points[bevel.segments[first].end as int].id == bevel.points[bevel.segments[first].end as int].id
        }),
{
}

/// Each join is a straight segment of its own between its two points, behind the segments that were there.
pub proof fn joins_are_straight_segments(segments: Seq<Segment>, joins: Seq<(int, int)>, last_id: SegmentId, i: int)
    requires
        0 <= i < joins.len(),
        0 <= joins[i].0 <= usize::MAX,
        0 <= joins[i].1 <= usize::MAX,
    ensures
        ({
            let found = with_joins(segments, joins, last_id);
            &&& found.len() == segments.len() + joins.len()
            &&& found[segments.len() + i].start == joins[i].0
            &&& found[segments.len() + i].end == joins[i].1
            &&& found[segments.len() + i].handles is Linear
            &&& forall|k: int| 0 <= k < segments.len() ==> #[trigger] found[k] == segments[k]
        }),
    decreases joins.len(),
{
    lemma_joins(segments, joins.drop_last(), last_id);
    if i < joins.len() - 1 {
        joins_are_straight_segments(segments, joins.drop_last(), last_id, i);
    }
}

proof fn lemma_joins(segments: Seq<Segment>, joins: Seq<(int, int)>, last_id: SegmentId)
    ensures
        with_joins(segments, joins, last_id).len() == segments.len() + joins.len(),
        forall|k: int| 0 <= k < segments.len() ==> #[trigger] with_joins(segments, joins, last_id)[k] == segments[k],
    decreases joins.len(),
{
    if joins.len() > 0 {
        lemma_joins(segments, joins.drop_last(), last_id);
    }
}

} // verus!
