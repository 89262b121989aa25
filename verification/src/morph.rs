//! Blending the shapes of one table into those of another.
use glam::{DAffine2, DVec2};
use kurbo::Point;
use vstd::prelude::*;

use crate::geometry::{from_translation, identity, is_less, lemma_units_are_ordered, less, splat, splat_of, zero};
use crate::lengths::PathsRow;
use crate::paths::{
    apply_affine, are_same, cubic_of, drawn, get_seg, halves_of, lerp, lerp_of, map_path, map_points, other_start, path_segments, pen_after,
    segment_at, segments, spec_end_point, subdivide, to_cubic, transforming, PathElement, PathSegment,
};

verus! {

/// Whether the path is a single subpath: it moves to its start, draws, and is closed at most at its
/// end.
pub open spec fn is_subpath(elements: Seq<PathElement>) -> bool {
    &&& elements.len() > 0
    &&& elements[0] is MoveTo
    &&& forall|i: int| 0 < i < elements.len() - 1 ==> (#[trigger] elements[i]).draws()
    &&& elements.len() > 1 ==> elements.last().draws() || elements.last() is ClosePath
}

/// The segments with the last one halved as often as said.
pub open spec fn halve_last(parts: Seq<PathSegment>, count: nat) -> Seq<PathSegment>
    decreases count,
{
    if count == 0 {
        parts
    } else {
        let before = halve_last(parts, (count - 1) as nat);
        let halves = halves_of(before.last());
        before.drop_last().push(halves.0).push(halves.1)
    }
}

/// The path with its last element taken off, and with it the one that closes it.
pub open spec fn without_last_element(elements: Seq<PathElement>) -> Seq<PathElement> {
    if elements.len() == 0 {
        elements
    } else if elements.last() is ClosePath && elements.len() > 1 {
        elements.take(elements.len() - 2)
    } else {
        elements.drop_last()
    }
}

/// The path with `count` segments more: its last segment is subdivided.
pub open spec fn with_new_segments(elements: Seq<PathElement>, count: nat) -> Seq<PathElement> {
    let segment_count = path_segments(elements).len();
    if count == 0 || segment_count == 0 {
        elements
    } else {
        let parts = halve_last(seq![segment_at(elements, segment_count as int)->0], count);
        let kept = without_last_element(elements);
        let begun = if kept.len() == 0 {
            seq![PathElement::MoveTo(parts[0].start())]
        } else {
            kept
        };
        let drawn = begun + parts.map_values(|part: PathSegment| part.as_element());
        if elements.last() is ClosePath {
            drawn.push(PathElement::ClosePath)
        } else {
            drawn
        }
    }
}

/// The number of segments by which the second path has more than the first.
pub open spec fn shortfall(first: Seq<PathElement>, second: Seq<PathElement>) -> nat {
    let a = path_segments(first).len();
    let b = path_segments(second).len();
    if b > a {
        (b - a) as nat
    } else {
        0
    }
}

/// Both paths, each with as many segments more as the other one had more.
pub open spec fn aligned(source: Seq<PathElement>, target: Seq<PathElement>) -> (Seq<PathElement>, Seq<PathElement>) {
    (
        with_new_segments(source, shortfall(source, target)),
        with_new_segments(target, shortfall(target, source)),
    )
}

/// Whether each element of the aligned source has its counterpart in the aligned target.
pub open spec fn can_blend(source: Seq<PathElement>, target: Seq<PathElement>) -> bool {
    forall|i: int|
        0 <= i < source.len() && i < target.len() ==> {
            &&& (#[trigger] source[i]) is MoveTo ==> target[i] !is ClosePath
            &&& source[i].draws() ==> 1 <= i <= path_segments(source).len() && i <= path_segments(target).len()
        }
}

/// An element on its way from the source to the target.
pub open spec fn blend_element(source: Seq<PathElement>, target: Seq<PathElement>, time: DVec2, i: int) -> PathElement {
    match source[i] {
        PathElement::MoveTo(p) => PathElement::MoveTo(lerp_of(p, spec_end_point(target[i])->0, time)),
        PathElement::ClosePath => PathElement::ClosePath,
        _ => {
            let a = cubic_of(path_segments(source)[i - 1]);
            let b = cubic_of(path_segments(target)[i - 1]);
            PathElement::CurveTo(lerp_of(a.1, b.1, time), lerp_of(a.2, b.2, time), lerp_of(a.3, b.3, time))
        },
    }
}

/// A path on its way from the source to the target, which are aligned.
pub open spec fn blend(source: Seq<PathElement>, target: Seq<PathElement>, time: DVec2) -> Seq<PathElement> {
    Seq::new(
        source.len(),
        |i: int|
            if i < target.len() {
                blend_element(source, target, time, i)
            } else {
                source[i]
            },
    )
}

pub open spec fn collapsing(end: Point, time: DVec2) -> spec_fn(Point) -> Point {
    |point: Point| lerp_of(point, end, time)
}

pub open spec fn emerging(start: Point, time: DVec2) -> spec_fn(Point) -> Point {
    |point: Point| lerp_of(start, point, time)
}

/// A path of the source without a counterpart, on its way to its end; nothing if it has no segment.
pub open spec fn collapse(path: Seq<PathElement>, transform: DAffine2, time: DVec2) -> Seq<Seq<PathElement>> {
    let placed = map_path(path, transforming(transform));
    let parts = path_segments(placed);
    if parts.len() == 0 {
        Seq::empty()
    } else {
        seq![map_path(placed, collapsing(parts.last().end(), time))]
    }
}

/// A path of the target without a counterpart, on its way from its start; nothing if it has no
/// segment.
pub open spec fn emerge(path: Seq<PathElement>, transform: DAffine2, time: DVec2) -> Seq<Seq<PathElement>> {
    let placed = map_path(path, transforming(transform));
    let parts = path_segments(placed);
    if parts.len() == 0 {
        Seq::empty()
    } else {
        seq![map_path(placed, emerging(parts[0].start(), time))]
    }
}

/// A pair of paths on the way from one to the other; nothing if one is empty.
pub open spec fn blend_pair(source: Seq<PathElement>, target: Seq<PathElement>, transforms: (DAffine2, DAffine2), time: DVec2) -> Seq<Seq<PathElement>> {
    if source.len() == 0 || target.len() == 0 {
        Seq::empty()
    } else {
        let pair = aligned(map_path(source, transforming(transforms.0)), map_path(target, transforming(transforms.1)));
        seq![blend(pair.0, pair.1, time)]
    }
}

/// Whether a pair of paths can be blended.
pub open spec fn can_blend_pair(source: Seq<PathElement>, target: Seq<PathElement>, transforms: (DAffine2, DAffine2)) -> bool {
    source.len() > 0 && target.len() > 0 ==> {
        let pair = aligned(map_path(source, transforming(transforms.0)), map_path(target, transforming(transforms.1)));
        can_blend(pair.0, pair.1)
    }
}

/// The paths of a shape, as mathematical values.
pub open spec fn paths_view(paths: Seq<Vec<PathElement>>) -> Seq<Seq<PathElement>> {
    paths.map_values(|path: Vec<PathElement>| path@)
}

/// The first `n` paths of the blended shape come from pairs.
pub open spec fn blend_pairs(source: Seq<Seq<PathElement>>, target: Seq<Seq<PathElement>>, transforms: (DAffine2, DAffine2), time: DVec2, n: nat) -> Seq<Seq<PathElement>>
    decreases n,
{
    if n == 0 {
        Seq::empty()
    } else {
        let i = n - 1;
        blend_pairs(source, target, transforms, time, i as nat) + blend_pair(source[i], target[i], transforms, time)
    }
}

/// The paths of the source from the index on collapse.
pub open spec fn collapse_rest(source: Seq<Seq<PathElement>>, from: int, transform: DAffine2, time: DVec2, n: nat) -> Seq<Seq<PathElement>>
    decreases n,
{
    if n == 0 {
        Seq::empty()
    } else {
        let i = n - 1;
        collapse_rest(source, from, transform, time, i as nat) + collapse(source[from + i], transform, time)
    }
}

/// The paths of the target from the index on emerge.
pub open spec fn emerge_rest(target: Seq<Seq<PathElement>>, from: int, transform: DAffine2, time: DVec2, n: nat) -> Seq<Seq<PathElement>>
    decreases n,
{
    if n == 0 {
        Seq::empty()
    } else {
        let i = n - 1;
        emerge_rest(target, from, transform, time, i as nat) + emerge(target[from + i], transform, time)
    }
}

pub open spec fn min_len<T>(a: Seq<T>, b: Seq<T>) -> nat {
    if a.len() < b.len() {
        a.len()
    } else {
        b.len()
    }
}

/// The time, kept between zero and one.
pub open spec fn unit_time(time: DVec2) -> DVec2 {
    if is_less(time, zero()) {
        zero()
    } else if is_less(splat_of(1), time) {
        splat_of(1)
    } else {
        time
    }
}

/// The paths of the blended shape. Paths without a counterpart collapse, those of the source to their
/// end, those of the target from their start.
pub open spec fn blend_paths(source: Seq<Seq<PathElement>>, target: Seq<Seq<PathElement>>, transforms: (DAffine2, DAffine2), time: DVec2) -> Seq<Seq<PathElement>> {
    let n = min_len(source, target);
    blend_pairs(source, target, transforms, time, n) + collapse_rest(
        source,
        n as int,
        transforms.0,
        time,
        (source.len() - n) as nat,
    ) + emerge_rest(target, n as int, transforms.0, time, (target.len() - n) as nat)
}

/// Whether the paths of two shapes can be blended.
pub open spec fn can_blend_paths(source: Seq<Seq<PathElement>>, target: Seq<Seq<PathElement>>, transforms: (DAffine2, DAffine2)) -> bool {
    &&& forall|i: int| 0 <= i < source.len() ==> (#[trigger] source[i]).len() > 0 ==> is_subpath(source[i])
    &&& forall|i: int| 0 <= i < target.len() ==> (#[trigger] target[i]).len() > 0 ==> is_subpath(target[i])
    &&& forall|i: int|
        #![trigger source[i], target[i]]
        0 <= i < source.len() && i < target.len() ==> can_blend_pair(source[i], target[i], transforms)
}

/// Each element of a subpath but the first draws one segment, up to where it is closed.
proof fn lemma_drawn_segments(elements: Seq<PathElement>, n: nat)
    requires
        is_subpath(elements),
        1 <= n <= elements.len(),
        forall|i: int| 0 < i < n ==> (#[trigger] elements[i]).draws(),
    ensures
        path_segments(elements.take(n as int)).len() == n - 1,
        pen_after(elements.take(n as int)).start == elements[0]->MoveTo_0,
        spec_end_point(elements[n - 1]) == Some(pen_after(elements.take(n as int)).last),
    decreases n,
{
    reveal_with_fuel(path_segments, 2);
    reveal_with_fuel(pen_after, 2);
    assert(elements.take(n as int).drop_last() == elements.take(n - 1));
    if n > 1 {
        lemma_drawn_segments(elements, (n - 1) as nat);
        assert(elements[n - 1].draws());
    } else {
        assert(elements.take(0) == Seq::<PathElement>::empty());
    }
}

/// The start of a subpath that is not at the point is its only start.
proof fn lemma_other_start(elements: Seq<PathElement>, point: Point)
    requires
        elements.len() > 0,
        elements[0] is MoveTo,
        forall|i: int| 0 < i < elements.len() ==> (#[trigger] elements[i]).draws(),
    ensures
        other_start(elements, point) == if are_same(point, elements[0]->MoveTo_0) {
            None
        } else {
            Some(elements[0]->MoveTo_0)
        },
    decreases elements.len(),
{
    if elements.len() > 1 {
        assert(elements.last().draws());
        lemma_other_start(elements.drop_last(), point);
    } else {
        assert(elements.drop_last() == Seq::<PathElement>::empty());
        assert(other_start(elements.drop_last(), point) is None);
    }
}

/// The number of segments of a subpath, and the last one of them.
proof fn lemma_subpath(elements: Seq<PathElement>)
    requires
        is_subpath(elements),
    ensures
        elements.last() !is ClosePath ==> path_segments(elements).len() == elements.len() - 1,
        elements.last() is ClosePath ==> elements.len() - 2 <= path_segments(elements).len() <= elements.len() - 1,
        path_segments(elements).len() > 0 ==> segment_at(elements, path_segments(elements).len() as int) is Some,
{
    let len = elements.len();
    let count = path_segments(elements).len();
    if elements.last() is ClosePath {
        assert(len > 1);
        let open = elements.drop_last();
        lemma_drawn_segments(elements, (len - 1) as nat);
        assert(open == elements.take(len - 1));
        if count == len - 1 {
            assert(elements[len - 1] is ClosePath);
            assert(elements[len - 2] is MoveTo || elements[len - 2].draws());
            assert(elements.take(len - 1)[0] == elements[0]);
            assert forall|i: int| 0 < i < open.len() implies (#[trigger] open[i]).draws() by {
                assert(elements[i].draws());
            }
            lemma_other_start(open, pen_after(open).last);
        } else if count > 0 {
            assert(elements[count as int].draws());
            assert(count > 1 ==> elements[count - 1].draws());
        }
    } else {
        lemma_drawn_segments(elements, len);
        assert(elements.take(len as int) == elements);
        if len > 1 {
            assert(elements.last().draws());
            assert(len > 2 ==> elements[len - 2].draws());
        }
    }
}

/// Halving the last segment adds one segment each time.
proof fn lemma_halve_last(parts: Seq<PathSegment>, count: nat)
    requires
        parts.len() > 0,
    ensures
        halve_last(parts, count).len() == parts.len() + count,
    decreases count,
{
    if count > 0 {
        lemma_halve_last(parts, (count - 1) as nat);
    }
}

/// A subpath with new segments is a subpath again, with as many elements more, and is closed as
/// before. For an open one that is as many segments more.
pub proof fn new_segments_are_added(elements: Seq<PathElement>, count: nat)
    requires
        is_subpath(elements),
        elements.last() !is ClosePath,
        path_segments(elements).len() > 0,
    ensures
        is_subpath(with_new_segments(elements, count)),
        with_new_segments(elements, count).last() !is ClosePath,
        with_new_segments(elements, count).len() == elements.len() + count,
        path_segments(with_new_segments(elements, count)).len() == path_segments(elements).len() + count,
{
    lemma_subpath(elements);
    let result = with_new_segments(elements, count);
    if count > 0 {
        let segment_count = path_segments(elements).len();
        let first = seq![segment_at(elements, segment_count as int)->0];
        let parts = halve_last(first, count);
        lemma_halve_last(first, count);
        let kept = without_last_element(elements);
        assert(kept == elements.drop_last());
        assert(elements.len() > 1);
        assert(kept.len() == elements.len() - 1);
        assert(kept[0] == elements[0]);
        let added = parts.map_values(|part: PathSegment| part.as_element());
        assert(result == kept + added);
        assert(result[0] == kept[0]);
        assert forall|i: int| 0 < i < result.len() implies (#[trigger] result[i]).draws() by {
            if i < kept.len() {
                assert(result[i] == elements[i]);
                assert(elements[i].draws());
            } else {
                assert(result[i] == parts[i - kept.len()].as_element());
            }
        }
        assert(result.last().draws());
        lemma_subpath(result);
    }
}

/// Two open paths that both draw something can always be blended, and have the same number of
/// elements once they are aligned.
pub proof fn open_paths_can_be_blended(source: Seq<PathElement>, target: Seq<PathElement>)
    requires
        is_subpath(source),
        is_subpath(target),
        source.last() !is ClosePath,
        target.last() !is ClosePath,
        path_segments(source).len() > 0,
        path_segments(target).len() > 0,
    ensures
        aligned(source, target).0.len() == aligned(source, target).1.len(),
        can_blend(aligned(source, target).0, aligned(source, target).1),
{
    new_segments_are_added(source, shortfall(source, target));
    new_segments_are_added(target, shortfall(target, source));
    lemma_subpath(source);
    lemma_subpath(target);
    let pair = aligned(source, target);
    lemma_subpath(pair.0);
    lemma_subpath(pair.1);
    assert forall|i: int| 0 <= i < pair.0.len() && i < pair.1.len() implies {
        &&& (#[trigger] pair.0[i]) is MoveTo ==> pair.1[i] !is ClosePath
        &&& pair.0[i].draws() ==> 1 <= i <= path_segments(pair.0).len() && i <= path_segments(pair.1).len()
    } by {
        if i > 0 && i < pair.0.len() - 1 {
            assert(pair.0[i].draws());
        }
    }
}

/// Subdivides the last segment of the path until `count` segments more have been appended.
pub fn make_new_segments(elements: &Vec<PathElement>, count: usize) -> (result: Vec<PathElement>)
    requires
        is_subpath(elements@),
    ensures
        result@ == with_new_segments(elements@, count as nat),
        result@.len() > 0 && result@[0] is MoveTo,
{
    proof {
        lemma_subpath(elements@);
    }
    let mut result: Vec<PathElement> = Vec::new();
    crate::sequences::append_copies(&mut result, elements);
    proof {
        assert(result@ == elements@);
    }
    let segment_count: usize = segments(elements).len();
    if count == 0 || segment_count == 0 {
        return result;
    }
    let last_segment: PathSegment = get_seg(elements, segment_count).unwrap();
    let mut parts: Vec<PathSegment> = vec![last_segment];
    let ghost first = seq![last_segment];
    proof {
        assert(parts@ == first);
    }
    let mut i: usize = 0;
    while i < count
        invariant
            i <= count,
            parts@ == halve_last(first, i as nat),
            parts@.len() > 0,
        decreases count - i,
    {
        let last: PathSegment = parts.pop().unwrap();
        let halves: (PathSegment, PathSegment) = subdivide(last);
        parts.push(halves.0);
        parts.push(halves.1);
        i += 1;
    }
    let mut is_closed: bool = false;
    if let Some(last_element) = result.pop() {
        if let PathElement::ClosePath = last_element {
            is_closed = true;
            let _: Option<PathElement> = result.pop();
        }
    }
    proof {
        assert(result@ == without_last_element(elements@));
        assert(is_closed == (elements@.last() is ClosePath));
    }
    if result.len() == 0 {
        result.push(PathElement::MoveTo(parts[0].start()));
    }
    let ghost begun = result@;
    let ghost added = parts@.map_values(|part: PathSegment| part.as_element());
    let mut k: usize = 0;
    while k < parts.len()
        invariant
            k <= parts.len(),
            added == parts@.map_values(|part: PathSegment| part.as_element()),
            result@ == begun + added.take(k as int),
        decreases parts.len() - k,
    {
        proof {
            assert(added.take(k + 1) == added.take(k as int).push(added[k as int]));
        }
        result.push(parts[k].as_element());
        k += 1;
    }
    proof {
        assert(added.take(k as int) == added);
    }
    if is_closed {
        result.push(PathElement::ClosePath);
    }
    result
}

/// A changed path has the same kinds of elements.
proof fn lemma_map_keeps_subpath(elements: Seq<PathElement>, change: spec_fn(Point) -> Point)
    ensures
        elements.len() > 0 && is_subpath(elements) ==> is_subpath(map_path(elements, change)),
{
    let result = map_path(elements, change);
    if elements.len() > 0 && is_subpath(elements) {
        assert forall|i: int| 0 < i < result.len() - 1 implies (#[trigger] result[i]).draws() by {
            assert(elements[i].draws());
        }
        assert(result.last() == map_points(elements.last(), change));
    }
}

/// Blends two aligned paths.
fn blend_path(source: &Vec<PathElement>, target: &Vec<PathElement>, time: DVec2) -> (result: Vec<PathElement>)
    requires
        source@.len() > 0 && source@[0] is MoveTo,
        target@.len() > 0 && target@[0] is MoveTo,
        can_blend(source@, target@),
    ensures
        result@ == blend(source@, target@, time),
{
    let source_segments: Vec<PathSegment> = segments(source);
    let target_segments: Vec<PathSegment> = segments(target);
    let mut result: Vec<PathElement> = Vec::new();
    let ghost all = blend(source@, target@, time);
    let mut i: usize = 0;
    while i < source.len()
        invariant
            i <= source.len(),
            can_blend(source@, target@),
            source_segments@ == path_segments(source@),
            target_segments@ == path_segments(target@),
            all == blend(source@, target@, time),
            result@ == all.take(i as int),
        decreases source.len() - i,
    {
        proof {
            assert(all.take(i + 1) == all.take(i as int).push(all[i as int]));
        }
        let element: PathElement = source[i];
        if i < target.len() {
            proof {
                assert(source@[i as int] == element);
            }
            let blended: PathElement = match element {
                PathElement::MoveTo(p) => PathElement::MoveTo(lerp(p, target[i].end_point().unwrap(), time)),
                PathElement::ClosePath => PathElement::ClosePath,
                _ => {
                    let a: (Point, Point, Point, Point) = to_cubic(source_segments[i - 1]);
                    let b: (Point, Point, Point, Point) = to_cubic(target_segments[i - 1]);
                    PathElement::CurveTo(lerp(a.1, b.1, time), lerp(a.2, b.2, time), lerp(a.3, b.3, time))
                },
            };
            result.push(blended);
        } else {
            result.push(element);
        }
        i += 1;
    }
    proof {
        assert(all.take(i as int) == all);
    }
    result
}

/// Moves the points of a path towards the point, or from it to them.
fn move_points(elements: &Vec<PathElement>, towards: bool, point: Point, time: DVec2) -> (result: Vec<PathElement>)
    ensures
        result@ == map_path(elements@, if towards {
            collapsing(point, time)
        } else {
            emerging(point, time)
        }),
{
    let ghost change = if towards {
        collapsing(point, time)
    } else {
        emerging(point, time)
    };
    let ghost all = map_path(elements@, change);
    let mut result: Vec<PathElement> = Vec::new();
    let mut i: usize = 0;
    while i < elements.len()
        invariant
            i <= elements.len(),
            change == (if towards {
                collapsing(point, time)
            } else {
                emerging(point, time)
            }),
            all == map_path(elements@, change),
            result@ == all.take(i as int),
        decreases elements.len() - i,
    {
        proof {
            assert(all.take(i + 1) == all.take(i as int).push(all[i as int]));
        }
        let element: PathElement = match elements[i] {
            PathElement::MoveTo(p) => PathElement::MoveTo(move_point(towards, point, p, time)),
            PathElement::LineTo(p) => PathElement::LineTo(move_point(towards, point, p, time)),
            PathElement::QuadTo(p1, p2) => PathElement::QuadTo(
                move_point(towards, point, p1, time),
                move_point(towards, point, p2, time),
            ),
            PathElement::CurveTo(p1, p2, p3) => PathElement::CurveTo(
                move_point(towards, point, p1, time),
                move_point(towards, point, p2, time),
                move_point(towards, point, p3, time),
            ),
            PathElement::ClosePath => PathElement::ClosePath,
        };
        result.push(element);
        i += 1;
    }
    proof {
        assert(all.take(i as int) == all);
    }
    result
}

fn move_point(towards: bool, point: Point, p: Point, time: DVec2) -> (result: Point)
    ensures
        result == if towards {
            lerp_of(p, point, time)
        } else {
            lerp_of(point, p, time)
        },
{
    if towards {
        lerp(p, point, time)
    } else {
        lerp(point, p, time)
    }
}

/// Aligns a pair of paths.
fn align_pair(source: &Vec<PathElement>, target: &Vec<PathElement>, transforms: (DAffine2, DAffine2)) -> (pair: (Vec<PathElement>, Vec<PathElement>))
    requires
        is_subpath(source@),
        is_subpath(target@),
    ensures
        (pair.0@, pair.1@) == aligned(
            map_path(source@, transforming(transforms.0)),
            map_path(target@, transforming(transforms.1)),
        ),
        pair.0@.len() > 0 && pair.0@[0] is MoveTo,
        pair.1@.len() > 0 && pair.1@[0] is MoveTo,
{
    proof {
        lemma_map_keeps_subpath(source@, transforming(transforms.0));
        lemma_map_keeps_subpath(target@, transforming(transforms.1));
    }
    let placed_source: Vec<PathElement> = apply_affine(source, transforms.0);
    let placed_target: Vec<PathElement> = apply_affine(target, transforms.1);
    let source_count: usize = segments(&placed_source).len();
    let target_count: usize = segments(&placed_target).len();
    let more_source: usize = if target_count > source_count {
        target_count - source_count
    } else {
        0
    };
    let more_target: usize = if source_count > target_count {
        source_count - target_count
    } else {
        0
    };
    (make_new_segments(&placed_source, more_source), make_new_segments(&placed_target, more_target))
}

/// The time, kept between zero and one.
pub fn clamp_time(time: DVec2) -> (result: DVec2)
    ensures
        result == unit_time(time),
        unit_time(result) == result,
{
    proof {
        lemma_units_are_ordered(0, 1);
    }
    let low: DVec2 = splat(0);
    let high: DVec2 = splat(1);
    if less(time, low) {
        low
    } else if less(high, time) {
        high
    } else {
        time
    }
}

/// Blends the paths of one shape into those of another. The `time` is a number in both coordinates:
/// zero for the source, one for the target. One beyond these blends as the nearer of them does.
pub fn morph_paths(source: &Vec<Vec<PathElement>>, target: &Vec<Vec<PathElement>>, source_transform: DAffine2, target_transform: DAffine2, time: DVec2) -> (result: Vec<Vec<PathElement>>)
    requires
        can_blend_paths(paths_view(source@), paths_view(target@), (source_transform, target_transform)),
    ensures
        paths_view(result@) == blend_paths(
            paths_view(source@),
            paths_view(target@),
            (source_transform, target_transform),
            unit_time(time),
        ),
        unit_time(unit_time(time)) == unit_time(time),
        paths_view(result@) == blend_paths(
            paths_view(source@),
            paths_view(target@),
            (source_transform, target_transform),
            unit_time(unit_time(time)),
        ),
{
    let time: DVec2 = clamp_time(time);
    let transforms: (DAffine2, DAffine2) = (source_transform, target_transform);
    let ghost sources = paths_view(source@);
    let ghost targets = paths_view(target@);
    let mut result: Vec<Vec<PathElement>> = Vec::new();
    proof {
        assert(paths_view(result@) == Seq::<Seq<PathElement>>::empty());
    }
    let count: usize = if source.len() < target.len() {
        source.len()
    } else {
        target.len()
    };
    let mut i: usize = 0;
    while i < count
        invariant
            i <= count,
            count == min_len(sources, targets),
            sources == paths_view(source@),
            targets == paths_view(target@),
            can_blend_paths(sources, targets, transforms),
            paths_view(result@) == blend_pairs(sources, targets, transforms, time, i as nat),
        decreases count - i,
    {
        proof {
            assert(sources[i as int] == source@[i as int]@);
            assert(targets[i as int] == target@[i as int]@);
        }
        let ghost before = paths_view(result@);
        if source[i].len() > 0 && target[i].len() > 0 {
            let pair: (Vec<PathElement>, Vec<PathElement>) = align_pair(&source[i], &target[i], transforms);
            let path: Vec<PathElement> = blend_path(&pair.0, &pair.1, time);
            let ghost added = path@;
            result.push(path);
            proof {
                assert(paths_view(result@) == before.push(added));
                assert(seq![added] == blend_pair(sources[i as int], targets[i as int], transforms, time));
            }
        }
        i += 1;
    }
    let ghost pairs = paths_view(result@);
    let mut k: usize = count;
    while k < source.len()
        invariant
            count <= k <= source.len(),
            count == min_len(sources, targets),
            sources == paths_view(source@),
            targets == paths_view(target@),
            can_blend_paths(sources, targets, transforms),
            paths_view(result@) == pairs + collapse_rest(sources, count as int, transforms.0, time, (k - count) as nat),
        decreases source.len() - k,
    {
        proof {
            assert(sources[k as int] == source@[k as int]@);
            lemma_map_keeps_subpath(sources[k as int], transforming(transforms.0));
        }
        let ghost before = paths_view(result@);
        let placed: Vec<PathElement> = apply_affine(&source[k], transforms.0);
        let parts: Vec<PathSegment> = segments(&placed);
        if parts.len() > 0 {
            let path: Vec<PathElement> = move_points(&placed, true, parts[parts.len() - 1].end(), time);
            let ghost added = path@;
            result.push(path);
            proof {
                assert(paths_view(result@) == before.push(added));
                assert(seq![added] == collapse(sources[k as int], transforms.0, time));
            }
        }
        k += 1;
    }
    let ghost collapsed = paths_view(result@);
    let mut m: usize = count;
    while m < target.len()
        invariant
            count <= m <= target.len(),
            count == min_len(sources, targets),
            sources == paths_view(source@),
            targets == paths_view(target@),
            can_blend_paths(sources, targets, transforms),
            paths_view(result@) == collapsed + emerge_rest(targets, count as int, transforms.0, time, (m - count) as nat),
        decreases target.len() - m,
    {
        proof {
            assert(targets[m as int] == target@[m as int]@);
            lemma_map_keeps_subpath(targets[m as int], transforming(transforms.0));
        }
        let ghost before = paths_view(result@);
        let placed: Vec<PathElement> = apply_affine(&target[m], transforms.0);
        let parts: Vec<PathSegment> = segments(&placed);
        if parts.len() > 0 {
            let path: Vec<PathElement> = move_points(&placed, false, parts[0].start(), time);
            let ghost added = path@;
            result.push(path);
            proof {
                assert(paths_view(result@) == before.push(added));
                assert(seq![added] == emerge(targets[m as int], transforms.0, time));
            }
        }
        m += 1;
    }
    result
}

/// Whether the path is a single subpath.
fn check_subpath(elements: &Vec<PathElement>) -> (result: bool)
    ensures
        result == is_subpath(elements@),
{
    if elements.len() == 0 {
        return false;
    }
    match elements[0] {
        PathElement::MoveTo(_) => {},
        _ => return false,
    }
    let mut i: usize = 1;
    while i < elements.len()
        invariant
            1 <= i <= elements.len(),
            elements@[0] is MoveTo,
            forall|j: int| 0 < j < i && j < elements@.len() - 1 ==> (#[trigger] elements@[j]).draws(),
            i == elements@.len() && elements@.len() > 1 ==> elements@.last().draws() || elements@.last() is ClosePath,
        decreases elements.len() - i,
    {
        let element: PathElement = elements[i];
        match element {
            PathElement::MoveTo(_) => return false,
            PathElement::ClosePath => {
                if i + 1 < elements.len() {
                    proof {
                        assert(!elements@[i as int].draws());
                    }
                    return false;
                }
            },
            _ => {},
        }
        i += 1;
    }
    true
}

/// Whether each element of the aligned source has its counterpart in the aligned target.
fn check_can_blend(source: &Vec<PathElement>, target: &Vec<PathElement>) -> (result: bool)
    requires
        source@.len() > 0 && source@[0] is MoveTo,
        target@.len() > 0 && target@[0] is MoveTo,
    ensures
        result == can_blend(source@, target@),
{
    let source_count: usize = segments(source).len();
    let target_count: usize = segments(target).len();
    let mut i: usize = 0;
    while i < source.len() && i < target.len()
        invariant
            i <= source.len(),
            source_count == path_segments(source@).len(),
            target_count == path_segments(target@).len(),
            forall|j: int|
                0 <= j < i && j < target@.len() ==> {
                    &&& (#[trigger] source@[j]) is MoveTo ==> target@[j] !is ClosePath
                    &&& source@[j].draws() ==> 1 <= j <= source_count && j <= target_count
                },
        decreases source.len() - i,
    {
        let fits: bool = match source[i] {
            PathElement::MoveTo(_) => target[i].end_point().is_some(),
            PathElement::ClosePath => true,
            _ => 1 <= i && i <= source_count && i <= target_count,
        };
        proof {
            assert(fits == ((source@[i as int] is MoveTo ==> target@[i as int] !is ClosePath) && (source@[i as int].draws() ==> 1 <= i
                <= source_count && i <= target_count)));
        }
        if !fits {
            return false;
        }
        i += 1;
    }
    true
}

/// Blends the paths of one shape into those of another, as [`morph_paths`] does, if they can be blended.
pub fn try_morph_paths(source: &Vec<Vec<PathElement>>, target: &Vec<Vec<PathElement>>, source_transform: DAffine2, target_transform: DAffine2, time: DVec2) -> (result: Option<Vec<Vec<PathElement>>>)
    ensures
        result is Some == can_blend_paths(paths_view(source@), paths_view(target@), (source_transform, target_transform)),
        result matches Some(paths) ==> paths_view(paths@) == blend_paths(
            paths_view(source@),
            paths_view(target@),
            (source_transform, target_transform),
            unit_time(time),
        ),
{
    let transforms: (DAffine2, DAffine2) = (source_transform, target_transform);
    let ghost sources = paths_view(source@);
    let ghost targets = paths_view(target@);
    let mut i: usize = 0;
    while i < source.len()
        invariant
            i <= source.len(),
            sources == paths_view(source@),
            targets == paths_view(target@),
            transforms == (source_transform, target_transform),
            forall|j: int| 0 <= j < i ==> (#[trigger] sources[j]).len() > 0 ==> is_subpath(sources[j]),
        decreases source.len() - i,
    {
        proof {
            assert(sources[i as int] == source@[i as int]@);
        }
        if source[i].len() > 0 && !check_subpath(&source[i]) {
            return None;
        }
        i += 1;
    }
    let mut k: usize = 0;
    while k < target.len()
        invariant
            k <= target.len(),
            sources == paths_view(source@),
            targets == paths_view(target@),
            transforms == (source_transform, target_transform),
            forall|j: int| 0 <= j < k ==> (#[trigger] targets[j]).len() > 0 ==> is_subpath(targets[j]),
        decreases target.len() - k,
    {
        proof {
            assert(targets[k as int] == target@[k as int]@);
        }
        if target[k].len() > 0 && !check_subpath(&target[k]) {
            return None;
        }
        k += 1;
    }
    let mut m: usize = 0;
    while m < source.len() && m < target.len()
        invariant
            m <= source.len(),
            sources == paths_view(source@),
            targets == paths_view(target@),
            transforms == (source_transform, target_transform),
            forall|j: int| 0 <= j < sources.len() ==> (#[trigger] sources[j]).len() > 0 ==> is_subpath(sources[j]),
            forall|j: int| 0 <= j < targets.len() ==> (#[trigger] targets[j]).len() > 0 ==> is_subpath(targets[j]),
            forall|j: int|
                #![trigger sources[j], targets[j]]
                0 <= j < m && j < targets.len() ==> can_blend_pair(sources[j], targets[j], transforms),
        decreases source.len() - m,
    {
        proof {
            assert(sources[m as int] == source@[m as int]@);
            assert(targets[m as int] == target@[m as int]@);
        }
        if source[m].len() > 0 && target[m].len() > 0 {
            let pair: (Vec<PathElement>, Vec<PathElement>) = align_pair(&source[m], &target[m], transforms);
            if !check_can_blend(&pair.0, &pair.1) {
                proof {
                    assert(!can_blend_pair(sources[m as int], targets[m as int], transforms));
                }
                return None;
            }
        }
        m += 1;
    }
    Some(morph_paths(source, target, source_transform, target_transform, time))
}

/// A row of a table of blended shapes: its paths, its transform, and the time, between zero and one, that its style and
/// its blending have on the way from the source to the target.
#[derive(Debug)]
pub struct MorphedRow {
    pub paths: Vec<Vec<PathElement>>,
    pub transform: DAffine2,
    pub time: DVec2,
}

/// What a row of a table of blended shapes holds.
pub struct MorphedView {
    pub paths: Seq<Seq<PathElement>>,
    pub transform: DAffine2,
    pub time: DVec2,
}

impl View for MorphedRow {
    type V = MorphedView;

    open spec fn view(&self) -> MorphedView {
        MorphedView { paths: paths_view(self.paths@), transform: self.transform, time: self.time }
    }
}

/// Whether the paths of two rows can be blended.
pub open spec fn can_blend_row(source: PathsRow, target: PathsRow) -> bool {
    can_blend_paths(paths_view(source.paths@), paths_view(target.paths@), (source.transform, target.transform))
}

/// Whether the paths of each pair of rows can be blended.
pub open spec fn can_blend_rows(source: Seq<PathsRow>, target: Seq<PathsRow>) -> bool {
    forall|i: int| #![trigger source[i], target[i]] 0 <= i < source.len() && i < target.len() ==> can_blend_row(source[i], target[i])
}

/// The row that two rows blend into. The transforms of both have been applied to the paths.
pub open spec fn morphed_row(source: PathsRow, target: PathsRow, time: DVec2) -> MorphedView {
    MorphedView {
        paths: blend_paths(
            paths_view(source.paths@),
            paths_view(target.paths@),
            (source.transform, target.transform),
            unit_time(time),
        ),
        transform: identity(),
        time: unit_time(time),
    }
}

/// The rows that the pairs of rows of two tables blend into.
pub open spec fn morphed_rows(source: Seq<PathsRow>, target: Seq<PathsRow>, time: DVec2) -> Seq<MorphedView> {
    Seq::new(min_len(source, target), |i: int| morphed_row(source[i], target[i], time))
}

/// What rows of a table of blended shapes hold.
pub open spec fn morphed_views(rows: Seq<MorphedRow>) -> Seq<MorphedView> {
    rows.map_values(|row: MorphedRow| row@)
}

/// Blended tables have as many rows as the shorter of both, and each has the transform that changes nothing.
pub proof fn morphing_applies_the_transforms(source: Seq<PathsRow>, target: Seq<PathsRow>, time: DVec2)
    ensures
        morphed_rows(source, target, time).len() == if source.len() < target.len() {
            source.len()
        } else {
            target.len()
        },
        forall|i: int|
            0 <= i < morphed_rows(source, target, time).len() ==> (#[trigger] morphed_rows(source, target, time)[i]).transform == identity(),
{
}

/// Blends the shapes of one table into those of another, row by row, as far as both have rows. The `time` is a number in
/// both coordinates: zero for the source, one for the target. One beyond these blends as the nearer of them does.
pub fn morph(source: &Vec<PathsRow>, target: &Vec<PathsRow>, time: DVec2) -> (rows: Vec<MorphedRow>)
    requires
        can_blend_rows(source@, target@),
    ensures
        morphed_views(rows@) == morphed_rows(source@, target@, time),
        morphed_views(rows@) == morphed_rows(source@, target@, unit_time(time)),
{
    let held: DVec2 = clamp_time(time);
    let mut rows: Vec<MorphedRow> = Vec::new();
    let mut i: usize = 0;
    while i < source.len() && i < target.len()
        invariant
            i <= source.len(),
            i <= target.len(),
            held == unit_time(time),
            unit_time(held) == held,
            can_blend_rows(source@, target@),
            rows@.len() == i,
            forall|k: int| 0 <= k < i ==> (#[trigger] rows@[k])@ == morphed_row(source@[k], target@[k], time),
        decreases source.len() - i,
    {
        proof {
            assert(can_blend_row(source@[i as int], target@[i as int]));
        }
        let paths: Vec<Vec<PathElement>> = morph_paths(&source[i].paths, &target[i].paths, source[i].transform, target[i].transform, time);
        rows.push(MorphedRow { paths, transform: from_translation(splat(0)), time: held });
        i += 1;
    }
    proof {
        assert(morphed_views(rows@) == morphed_rows(source@, target@, time));
        assert(morphed_rows(source@, target@, held) == morphed_rows(source@, target@, time));
    }
    rows
}

/// Blends the shapes of one table into those of another, as [`morph`] does, if they can be blended.
pub fn try_morph(source: &Vec<PathsRow>, target: &Vec<PathsRow>, time: DVec2) -> (result: Option<Vec<MorphedRow>>)
    ensures
        result is Some == can_blend_rows(source@, target@),
        result matches Some(rows) ==> {
            &&& morphed_views(rows@) == morphed_rows(source@, target@, time)
            &&& morphed_views(rows@) == morphed_rows(source@, target@, unit_time(time))
        },
{
    let held: DVec2 = clamp_time(time);
    let mut rows: Vec<MorphedRow> = Vec::new();
    let mut i: usize = 0;
    while i < source.len() && i < target.len()
        invariant
            i <= source.len(),
            i <= target.len(),
            held == unit_time(time),
            unit_time(held) == held,
            rows@.len() == i,
            forall|k: int| 0 <= k < i ==> can_blend_row(#[trigger] source@[k], target@[k]),
            forall|k: int| 0 <= k < i ==> (#[trigger] rows@[k])@ == morphed_row(source@[k], target@[k], time),
        decreases source.len() - i,
    {
        match try_morph_paths(&source[i].paths, &target[i].paths, source[i].transform, target[i].transform, time) {
            Some(paths) => rows.push(MorphedRow { paths, transform: from_translation(splat(0)), time: held }),
            None => {
                proof {
                    assert(!can_blend_row(source@[i as int], target@[i as int]));
                }
                return None;
            },
        }
        i += 1;
    }
    proof {
        assert(morphed_views(rows@) == morphed_rows(source@, target@, time));
        assert(morphed_rows(source@, target@, held) == morphed_rows(source@, target@, time));
    }
    Some(rows)
}

} // verus!
