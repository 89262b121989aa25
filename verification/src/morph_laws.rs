//! What blending gives at each time, and at both ends.
use glam::{DAffine2, DVec2};
use kurbo::Point;
use vstd::prelude::*;

use crate::exact::Exact;
use crate::geometry::{splat_of, zero};
use crate::lengths::PathsRow;
use crate::morph::{
    aligned, blend, blend_pair, blend_pairs, blend_paths, collapse, collapsing, emerge, emerging, is_subpath, morphed_row, new_segments_are_added,
    paths_view, unit_time, with_new_segments,
};
use crate::paths::{
    cubic_of, drawn, lerp_of, map_path, path_segments, pen_after, spec_end_point, transforming, PathElement, PathSegment,
};

verus! {

/// The elements of a subpath up to one draw, if that does.
proof fn lemma_draws_before(elements: Seq<PathElement>, i: int)
    requires
        is_subpath(elements),
        0 < i < elements.len(),
        elements[i].draws(),
    ensures
        forall|j: int| 0 < j <= i ==> (#[trigger] elements[j]).draws(),
{
}

/// Where the pen is after the first elements of a subpath, and how many segments they have drawn.
proof fn lemma_pen(elements: Seq<PathElement>, n: int)
    requires
        is_subpath(elements),
        1 <= n <= elements.len(),
        forall|j: int| 0 < j < n ==> (#[trigger] elements[j]).draws(),
    ensures
        path_segments(elements.take(n)).len() == n - 1,
        spec_end_point(elements[n - 1]) == Some(pen_after(elements.take(n)).last),
        pen_after(elements.take(n)).start == elements[0]->MoveTo_0,
    decreases n,
{
    reveal_with_fuel(path_segments, 2);
    reveal_with_fuel(pen_after, 2);
    assert(elements.take(n).drop_last() == elements.take(n - 1));
    if n > 1 {
        lemma_pen(elements, n - 1);
        assert(elements[n - 1].draws());
    } else {
        assert(elements.take(0) == Seq::<PathElement>::empty());
    }
}

/// The segments of the first elements are the first segments.
proof fn lemma_first_segments(elements: Seq<PathElement>, n: int, k: int)
    requires
        0 <= n <= elements.len(),
        0 <= k < path_segments(elements.take(n)).len(),
    ensures
        k < path_segments(elements).len(),
        path_segments(elements)[k] == path_segments(elements.take(n))[k],
    decreases elements.len(),
{
    if n == elements.len() {
        assert(elements.take(n) == elements);
    } else {
        let open = elements.drop_last();
        assert(open.take(n) == elements.take(n));
        lemma_first_segments(open, n, k);
    }
}

/// The segment that an element of a subpath draws: from where the one before ended.
proof fn lemma_segment(elements: Seq<PathElement>, i: int)
    requires
        is_subpath(elements),
        0 < i < elements.len(),
        elements[i].draws(),
    ensures
        i - 1 < path_segments(elements).len(),
        spec_end_point(elements[i - 1]) is Some,
        path_segments(elements)[i - 1] == match elements[i] {
            PathElement::LineTo(p) => PathSegment::Line(spec_end_point(elements[i - 1])->0, p),
            PathElement::QuadTo(p1, p2) => PathSegment::Quad(spec_end_point(elements[i - 1])->0, p1, p2),
            PathElement::CurveTo(p1, p2, p3) => PathSegment::Cubic(spec_end_point(elements[i - 1])->0, p1, p2, p3),
            _ => arbitrary(),
        },
{
    lemma_draws_before(elements, i);
    lemma_pen(elements, i);
    lemma_pen(elements, i + 1);
    let upto = elements.take(i + 1);
    assert(upto.drop_last() == elements.take(i));
    assert(path_segments(upto) == path_segments(elements.take(i)) + drawn(pen_after(elements.take(i)), elements[i]));
    lemma_first_segments(elements, i + 1, i - 1);
}

/// Each curve of a blended path is, in all four of its control points, the interpolation by the time of the curves of both
/// paths at the same place. Between two lines it is straight.
pub proof fn control_points_are_interpolated(source: Seq<PathElement>, target: Seq<PathElement>, time: DVec2, i: int)
    requires
        is_subpath(source),
        is_subpath(target),
        0 < i < source.len(),
        i < target.len(),
        source[i].draws(),
        target[i].draws(),
    ensures
        ({
            let one = path_segments(source)[i - 1];
            let other = path_segments(target)[i - 1];
            let (a, b) = (cubic_of(one), cubic_of(other));
            let found = path_segments(blend(source, target, time))[i - 1];
            &&& i - 1 < path_segments(blend(source, target, time)).len()
            &&& found == PathSegment::Cubic(
                lerp_of(a.0, b.0, time),
                lerp_of(a.1, b.1, time),
                lerp_of(a.2, b.2, time),
                lerp_of(a.3, b.3, time),
            )
            &&& found.start() == lerp_of(one.start(), other.start(), time)
            &&& found.end() == lerp_of(one.end(), other.end(), time)
            &&& one is Line && other is Line ==> found == PathSegment::Cubic(found.start(), found.start(), found.end(), found.end())
        }),
{
    let result = blend(source, target, time);
    lemma_draws_before(source, i);
    lemma_draws_before(target, i);
    assert forall|j: int| 0 < j <= i implies (#[trigger] result[j]).draws() by {
        assert(source[j].draws());
    }
    assert(is_subpath(result)) by {
        assert(source[0] is MoveTo);
        assert forall|j: int| 0 < j < result.len() - 1 implies (#[trigger] result[j]).draws() by {
            assert(source[j].draws());
        }
        assert(source.last() == source[source.len() - 1]);
    }
    lemma_segment(source, i);
    lemma_segment(target, i);
    lemma_segment(result, i);
    if i > 1 {
        assert(source[i - 1].draws());
        assert(target[i - 1].draws());
        lemma_segment(source, i - 1);
        lemma_segment(target, i - 1);
    }
}

/// Whether a time leaves each point where it was in the source.
pub open spec fn keeps_source(time: DVec2) -> bool {
    forall|a: Point, b: Point| #[trigger] lerp_of(a, b, time) == a
}

/// Whether a time takes each point to where it is in the target.
pub open spec fn reaches_target(time: DVec2) -> bool {
    forall|a: Point, b: Point| #[trigger] lerp_of(a, b, time) == b
}

/// The time at which points are where they were in the source gives its curves, and the one at which they are where they
/// are in the target gives those of that.
pub proof fn ends_of_a_blend(source: Seq<PathElement>, target: Seq<PathElement>, time: DVec2, i: int)
    requires
        is_subpath(source),
        is_subpath(target),
        0 < i < source.len(),
        i < target.len(),
        source[i].draws(),
        target[i].draws(),
    ensures
        keeps_source(time) ==> cubic_of(path_segments(blend(source, target, time))[i - 1]) == cubic_of(path_segments(source)[i - 1]),
        reaches_target(time) ==> cubic_of(path_segments(blend(source, target, time))[i - 1]) == cubic_of(path_segments(target)[i - 1]),
{
    control_points_are_interpolated(source, target, time, i);
}

/// Whether the control points of two curves are at the same places.
pub open spec fn at_same_places(exact: Exact, a: PathSegment, b: PathSegment) -> bool {
    &&& exact.point(cubic_of(a).0) == exact.point(cubic_of(b).0)
    &&& exact.point(cubic_of(a).1) == exact.point(cubic_of(b).1)
    &&& exact.point(cubic_of(a).2) == exact.point(cubic_of(b).2)
    &&& exact.point(cubic_of(a).3) == exact.point(cubic_of(b).3)
}

/// A point blended at the times zero and one.
proof fn lemma_lerp(exact: Exact, a: Point, b: Point, time: DVec2)
    requires
        exact.has_points(),
    ensures
        exact.is_number(time, 0 as real) ==> exact.point(lerp_of(a, b, time)) == exact.point(a),
        exact.is_number(time, 1 as real) ==> exact.point(lerp_of(a, b, time)) == exact.point(b),
{
    let (p, q) = (exact.point(a), exact.point(b));
    let t = exact.of(time).x;
    assert(exact.point(lerp_of(a, b, time)) == p.plus(q.minus(p).scaled(t)));
    if exact.is_number(time, 0 as real) {
        assert(t == 0 as real);
        assert(q.minus(p).scaled(t).is_zero());
    }
    if exact.is_number(time, 1 as real) {
        assert(t == 1 as real);
        assert(q.minus(p).scaled(t) == q.minus(p));
    }
}

/// A blended curve goes from the source's to the target's: where each step is exact, it has all control points of the one
/// at the time zero and all of the other at the time one.
pub proof fn a_curve_goes_from_source_to_target(
    exact: Exact,
    source: Seq<PathElement>,
    target: Seq<PathElement>,
    time: DVec2,
    i: int,
)
    requires
        exact.has_points(),
        is_subpath(source),
        is_subpath(target),
        0 < i < source.len(),
        i < target.len(),
        source[i].draws(),
        target[i].draws(),
    ensures
        exact.is_number(time, 0 as real) ==> at_same_places(
            exact,
            path_segments(blend(source, target, time))[i - 1],
            path_segments(source)[i - 1],
        ),
        exact.is_number(time, 1 as real) ==> at_same_places(
            exact,
            path_segments(blend(source, target, time))[i - 1],
            path_segments(target)[i - 1],
        ),
{
    control_points_are_interpolated(source, target, time, i);
    let a = cubic_of(path_segments(source)[i - 1]);
    let b = cubic_of(path_segments(target)[i - 1]);
    lemma_lerp(exact, a.0, b.0, time);
    lemma_lerp(exact, a.1, b.1, time);
    lemma_lerp(exact, a.2, b.2, time);
    lemma_lerp(exact, a.3, b.3, time);
}

/// New segments come out of the last one: those before it stay as they are.
pub proof fn earlier_segments_stay(elements: Seq<PathElement>, count: nat, k: int)
    requires
        is_subpath(elements),
        elements.last() !is ClosePath,
        0 <= k < path_segments(elements).len() - 1,
    ensures
        k < path_segments(with_new_segments(elements, count)).len(),
        path_segments(with_new_segments(elements, count))[k] == path_segments(elements)[k],
{
    new_segments_are_added(elements, count);
    let longer = with_new_segments(elements, count);
    if count > 0 {
        assert forall|j: int| 0 < j < elements.len() implies (#[trigger] elements[j]).draws() by {
            assert(j < elements.len() - 1 || elements[j] == elements.last());
        }
        lemma_pen(elements, elements.len() as int);
        assert(elements.take(elements.len() as int) == elements);
        assert(path_segments(elements).len() == elements.len() - 1);
        assert(elements[k + 1].draws());
        assert(longer[k] == elements[k]);
        assert(longer[k + 1] == elements[k + 1]);
        lemma_segment(elements, k + 1);
        lemma_segment(longer, k + 1);
    }
}

/// Placing a path keeps what kind its elements are of.
proof fn lemma_placed_subpath(path: Seq<PathElement>, transform: DAffine2)
    requires
        is_subpath(path),
    ensures
        is_subpath(map_path(path, transforming(transform))),
        forall|i: int| 0 <= i < path.len() ==> (#[trigger] map_path(path, transforming(transform))[i]).draws() == path[i].draws(),
{
    let placed = map_path(path, transforming(transform));
    assert forall|i: int| 0 <= i < path.len() implies (#[trigger] placed[i]).draws() == path[i].draws() by {}
    assert(placed.last() == placed[path.len() - 1]);
    assert(path.last() == path[path.len() - 1]);
    assert(placed[0] is MoveTo);
    assert forall|i: int| 0 < i < placed.len() - 1 implies (#[trigger] placed[i]).draws() by {
        assert(path[i].draws());
    }
}

/// Two paths with as many segments blend from the one to the other, each under the transform of its own shape: at the
/// time of the source the curves are those of the source as it is placed, at the time of the target those of the target
/// as it is placed.
pub proof fn a_pair_blends_from_source_to_target(
    source: Seq<PathElement>,
    target: Seq<PathElement>,
    transforms: (DAffine2, DAffine2),
    time: DVec2,
    i: int,
)
    requires
        is_subpath(source),
        is_subpath(target),
        path_segments(map_path(source, transforming(transforms.0))).len() == path_segments(map_path(target, transforming(transforms.1))).len(),
        0 < i < source.len(),
        i < target.len(),
        source[i].draws(),
        target[i].draws(),
    ensures
        blend_pair(source, target, transforms, time).len() == 1,
        ({
            let found = cubic_of(path_segments(blend_pair(source, target, transforms, time)[0])[i - 1]);
            &&& keeps_source(time) ==> found == cubic_of(path_segments(map_path(source, transforming(transforms.0)))[i - 1])
            &&& reaches_target(time) ==> found == cubic_of(path_segments(map_path(target, transforming(transforms.1)))[i - 1])
        }),
{
    let (a, b) = (map_path(source, transforming(transforms.0)), map_path(target, transforming(transforms.1)));
    lemma_placed_subpath(source, transforms.0);
    lemma_placed_subpath(target, transforms.1);
    assert(a[i].draws() && b[i].draws());
    ends_of_a_blend(a, b, time, i);
    assert(aligned(a, b) == (a, b));
}

/// A path without a counterpart collapses to its end: at the time of the source it is as it was, placed by the source's
/// transform, and at the time of the target all of its points are where it ends.
pub proof fn a_lone_source_collapses(path: Seq<PathElement>, transform: DAffine2, time: DVec2)
    requires
        path_segments(map_path(path, transforming(transform))).len() > 0,
    ensures
        ({
            let placed = map_path(path, transforming(transform));
            let end = path_segments(placed).last().end();
            &&& keeps_source(time) ==> collapse(path, transform, time) == seq![placed]
            &&& reaches_target(time) ==> collapse(path, transform, time) == seq![map_path(placed, |point: Point| end)]
        }),
{
    let placed = map_path(path, transforming(transform));
    let end = path_segments(placed).last().end();
    let moved = map_path(placed, collapsing(end, time));
    if keeps_source(time) {
        assert forall|i: int| 0 <= i < placed.len() implies #[trigger] moved[i] == placed[i] by {}
        assert(moved == placed);
    }
    if reaches_target(time) {
        let gathered = map_path(placed, |point: Point| end);
        assert forall|i: int| 0 <= i < placed.len() implies #[trigger] moved[i] == gathered[i] by {}
        assert(moved == gathered);
    }
}

/// A path without a counterpart emerges from its start: at the time of the source all of its points are where it starts,
/// and at the time of the target it is as it is placed.
pub proof fn a_lone_target_emerges(path: Seq<PathElement>, transform: DAffine2, time: DVec2)
    requires
        path_segments(map_path(path, transforming(transform))).len() > 0,
    ensures
        ({
            let placed = map_path(path, transforming(transform));
            let start = path_segments(placed)[0].start();
            &&& keeps_source(time) ==> emerge(path, transform, time) == seq![map_path(placed, |point: Point| start)]
            &&& reaches_target(time) ==> emerge(path, transform, time) == seq![placed]
        }),
{
    let placed = map_path(path, transforming(transform));
    let start = path_segments(placed)[0].start();
    let moved = map_path(placed, emerging(start, time));
    if keeps_source(time) {
        let gathered = map_path(placed, |point: Point| start);
        assert forall|i: int| 0 <= i < placed.len() implies #[trigger] moved[i] == gathered[i] by {}
        assert(moved == gathered);
    }
    if reaches_target(time) {
        assert forall|i: int| 0 <= i < placed.len() implies #[trigger] moved[i] == placed[i] by {}
        assert(moved == placed);
    }
}

/// The blended paths come in the order of the pairs, each of a pair of its own, where no path is empty.
pub proof fn blended_paths_keep_their_order(
    source: Seq<Seq<PathElement>>,
    target: Seq<Seq<PathElement>>,
    transforms: (DAffine2, DAffine2),
    time: DVec2,
    n: nat,
    k: int,
)
    requires
        n <= source.len(),
        n <= target.len(),
        0 <= k < n,
        forall|j: int| #![trigger source[j]] #![trigger target[j]] 0 <= j < n ==> source[j].len() > 0 && target[j].len() > 0,
    ensures
        blend_pairs(source, target, transforms, time, n).len() == n,
        seq![blend_pairs(source, target, transforms, time, n)[k]] == blend_pair(source[k], target[k], transforms, time),
    decreases n,
{
    let i = n - 1;
    let before = blend_pairs(source, target, transforms, time, i as nat);
    assert(source[i].len() > 0 && target[i].len() > 0);
    if i > 0 {
        blended_paths_keep_their_order(source, target, transforms, time, i as nat, if k < i { k } else { 0 });
    }
    let own = blend_pair(source[i], target[i], transforms, time);
    let all = blend_pairs(source, target, transforms, time, n);
    assert(all == before + own);
    if k < i {
        assert(all[k] == before[k]);
    } else {
        assert(all[k] == own[0]);
        assert(seq![all[k]] == own);
    }
}

/// The time is held between zero and one: before that the shapes are the source's, after it the target's.
pub proof fn time_is_held(exact: Exact, time: DVec2, t: real)
    requires
        exact.wf(),
        exact.is_number(time, t),
    ensures
        t <= 0 as real ==> exact.is_number(unit_time(time), 0 as real),
        0 as real <= t <= 1 as real ==> exact.is_number(unit_time(time), t),
        t >= 1 as real ==> exact.is_number(unit_time(time), 1 as real),
{
    assert(exact.is_number(zero(), (0 as i32) as real));
    assert(exact.is_number(splat_of(1), (1 as i32) as real));
}

/// Rows are morphed at the time as it is held, and carry it.
pub proof fn rows_are_morphed_at_the_held_time(source: PathsRow, target: PathsRow, time: DVec2)
    ensures
        morphed_row(source, target, time).time == unit_time(time),
        morphed_row(source, target, time).paths == blend_paths(
            paths_view(source.paths@),
            paths_view(target.paths@),
            (source.transform, target.transform),
            morphed_row(source, target, time).time,
        ),
{
}

} // verus!
