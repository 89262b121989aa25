//! Giving the anchors of a path the handles of a smooth curve.
use glam::{DAffine2, DVec2};
use vstd::prelude::*;

use crate::exact::{
    lemma_cancel, lemma_factors, lemma_length, lemma_less, lemma_not_zero, lemma_opposite, lemma_signs, lemma_spread, lemma_square,
    lemma_there_and_back, lemma_times, lemma_unit, Exact, Pair,
};
use crate::geometry::{
    close, difference, divide, dot, dot_product, equals_zero, inverse, inverse_of, is_close, is_less, is_zero, length, length_of, less, minus,
    negate, negation, normalize_or_zero, perp, perpendicular, plus, product, quotient, reciprocal, reciprocal_of, splat, splat_of,
    squared_length, sum, times, try_normalize, unit, unit_or_zero, zero,
};
use crate::subpath::{ManipulatorGroup, Subpath, SubpathView};

verus! {

/// Whether a handle is there and not on top of its anchor.
pub open spec fn is_pulled_out(handle: Option<DVec2>, anchor: DVec2) -> bool {
    handle matches Some(h) && !is_close(h, anchor, reciprocal_of(100_000))
}

/// Whether an anchor has a handle that is not on top of it.
pub open spec fn has_handles(group: ManipulatorGroup) -> bool {
    is_pulled_out(group.in_handle, group.anchor) || is_pulled_out(group.out_handle, group.anchor)
}

/// The line along which the handles of an anchor lie: that from the next anchor to the one before,
/// or across if both are in the same direction. It points to the anchor before.
pub open spec fn handle_line(to_previous: DVec2, to_next: DVec2) -> DVec2 {
    let line = match unit(difference(to_previous, to_next)) {
        Some(direction) => direction,
        None => perpendicular(to_previous),
    };
    if is_less(dot_product(to_previous, line), zero()) {
        negation(line)
    } else {
        line
    }
}

/// The length of a handle: a third of the distance to the neighbor, scaled by the spread.
pub open spec fn handle_reach(from: DVec2, to: DVec2, spread: DVec2) -> DVec2 {
    product(quotient(length_of(difference(to, from)), splat_of(3)), spread)
}

/// An anchor with the handles of a smooth curve.
pub open spec fn smooth_group(path: SubpathView, i: int, spread: DVec2, preserve_existing: bool) -> ManipulatorGroup {
    let group = path.groups[i];
    let anchor = group.anchor;
    let previous = path.groups[path.previous(i)].anchor;
    let next = path.groups[path.next(i)].anchor;
    let to_previous = unit_or_zero(difference(previous, anchor));
    let to_next = unit_or_zero(difference(next, anchor));
    if preserve_existing && (has_handles(group) || path.is_end(i)) {
        group
    } else if is_zero(spread) {
        ManipulatorGroup { in_handle: None, out_handle: None, ..group }
    } else if is_less(squared_length(to_previous), reciprocal_of(100_000)) || is_less(
        squared_length(to_next),
        reciprocal_of(100_000),
    ) {
        group
    } else {
        let line = handle_line(to_previous, to_next);
        ManipulatorGroup {
            in_handle: Some(sum(anchor, product(line, handle_reach(previous, anchor, spread)))),
            out_handle: Some(difference(anchor, product(line, handle_reach(anchor, next, spread)))),
            ..group
        }
    }
}

/// A path whose anchors have the handles of a smooth curve.
pub open spec fn smooth_path(path: SubpathView, spread: DVec2, preserve_existing: bool) -> SubpathView {
    SubpathView {
        groups: Seq::new(path.groups.len(), |i: int| smooth_group(path, i, spread, preserve_existing)),
        ..path
    }
}

/// The path that automatic tangents give, in the space of the shape. A path of fewer than two anchors
/// is only placed.
pub open spec fn with_auto_tangents(path: SubpathView, transform: DAffine2, spread: DVec2, preserve_existing: bool) -> SubpathView {
    if path.groups.len() < 2 {
        path.placed(transform)
    } else {
        smooth_path(path.placed(transform), spread, preserve_existing).placed(inverse_of(transform))
    }
}

/// Where both neighbors are in the same direction, the handles are across it.
pub proof fn handles_are_across_where_a_path_turns_back(exact: Exact, to_previous: DVec2, to_next: DVec2)
    requires
        exact.wf(),
        exact.of(to_previous) == exact.of(to_next),
    ensures
        exact.of(handle_line(to_previous, to_next)) == exact.of(to_previous).turned(),
        exact.of(handle_line(to_previous, to_next)).dot(exact.of(to_previous)) == 0 as real,
{
    let apart = difference(to_previous, to_next);
    assert(exact.of(apart).is_zero());
    if let Some(direction) = unit(apart) {
        lemma_not_zero(exact.of(apart), exact.of(direction), exact.of(length_of(apart)).x);
    }
    let d = exact.of(to_previous);
    let line = perpendicular(to_previous);
    lemma_less(d.y, d.y, d.x);
    lemma_factors(d.x, d.y, d.y);
    assert(d.dot(d.turned()) == 0 as real);
    assert(d.turned().dot(d) == 0 as real);
    assert(exact.is_number(dot_product(to_previous, line), 0 as real));
}

/// Automatic tangents move no anchor, and each anchor keeps its identifier.
pub proof fn smoothing_keeps_the_anchors(path: SubpathView, spread: DVec2, preserve_existing: bool)
    ensures
        smooth_path(path, spread, preserve_existing).groups.len() == path.groups.len(),
        smooth_path(path, spread, preserve_existing).closed == path.closed,
        forall|i: int|
            0 <= i < path.groups.len() ==> {
                &&& (#[trigger] smooth_path(path, spread, preserve_existing).groups[i]).anchor == path.groups[i].anchor
                &&& smooth_path(path, spread, preserve_existing).groups[i].id == path.groups[i].id
            },
{
}

/// Where existing handles are to be preserved, an anchor that has some stays as it is.
pub proof fn smoothing_preserves_existing_handles(path: SubpathView, spread: DVec2, i: int)
    requires
        0 <= i < path.groups.len(),
        has_handles(path.groups[i]),
    ensures
        smooth_path(path, spread, true).groups[i] == path.groups[i],
{
}

/// Whether handles lie along a direction on both sides of an anchor: the one before on that side, the one after on the
/// other, each a third of the way to its neighbor off, times the spread.
pub open spec fn lie_along(exact: Exact, group: ManipulatorGroup, direction: Pair, lengths: (real, real), spread: real) -> bool {
    &&& group.in_handle matches Some(before) && exact.of(before).minus(exact.of(group.anchor)) == direction.scaled(lengths.0 / 3 as real * spread)
    &&& group.out_handle matches Some(after) && exact.of(group.anchor).minus(exact.of(after)) == direction.scaled(lengths.1 / 3 as real * spread)
}

/// The handles that an anchor gets treat both of its neighbors alike. They lie on one line through the anchor, which is
/// parallel to the difference of the directions to the neighbors, so that it is at the same angle to both. The handle
/// before the anchor is on the side of the neighbor before it. Each handle is a third of the way to its neighbor off,
/// times the spread.
///
/// The `towards` are the directions and the distances to the neighbor before and to the one after, which are in different
/// directions.
pub proof fn handles_treat_neighbors_alike(
    exact: Exact,
    path: SubpathView,
    i: int,
    spread: DVec2,
    preserve_existing: bool,
    towards: ((Pair, real), (Pair, real)),
    factor: real,
)
    requires
        exact.wf(),
        0 <= i < path.groups.len(),
        smooth_path(path, spread, preserve_existing).groups[i] != path.groups[i],
        smooth_path(path, spread, preserve_existing).groups[i].in_handle is Some,
        exact.is_number(spread, factor),
        exact.of(path.groups[path.previous(i)].anchor).minus(exact.of(path.groups[i].anchor)).points_along(towards.0.0, towards.0.1),
        exact.of(path.groups[path.next(i)].anchor).minus(exact.of(path.groups[i].anchor)).points_along(towards.1.0, towards.1.1),
        towards.0.0 != towards.1.0,
    ensures
        exists|direction: Pair|
            {
                &&& direction.is_unit()
                &&& direction.cross(towards.0.0.minus(towards.1.0)) == 0 as real
                &&& direction.dot(towards.0.0) > 0 as real
                &&& direction.dot(towards.0.0) == -direction.dot(towards.1.0)
                &&& #[trigger] lie_along(
                    exact,
                    smooth_path(path, spread, preserve_existing).groups[i],
                    direction,
                    (towards.0.1, towards.1.1),
                    factor,
                )
            },
{
    let group = smooth_path(path, spread, preserve_existing).groups[i];
    let anchor = path.groups[i].anchor;
    let previous = path.groups[path.previous(i)].anchor;
    let next = path.groups[path.next(i)].anchor;
    let (p, n) = (towards.0.0, towards.1.0);
    assert(group == smooth_group(path, i, spread, preserve_existing));
    lemma_unit(exact, difference(previous, anchor), p, towards.0.1);
    lemma_unit(exact, difference(next, anchor), n, towards.1.1);
    let to_previous = unit_or_zero(difference(previous, anchor));
    let to_next = unit_or_zero(difference(next, anchor));
    let apart = difference(to_previous, to_next);
    assert(exact.of(apart) == p.minus(n));
    assert(!exact.of(apart).is_zero());
    let line = unit(apart)->0;
    let h = exact.of(line);
    let k = exact.of(length_of(apart)).x;
    assert(p.minus(n) == h.scaled(k));
    lemma_line(h, k, p, n);
    assert(!is_less(dot_product(to_previous, line), zero()));
    assert(handle_line(to_previous, to_next) == line);
    lemma_opposite(exact.of(previous).minus(exact.of(anchor)), p, towards.0.1);
    lemma_length(exact, difference(anchor, previous), p.opposite(), towards.0.1);
    assert(exact.is_number(handle_reach(previous, anchor, spread), towards.0.1 / 3 as real * factor));
    assert(exact.is_number(handle_reach(anchor, next, spread), towards.1.1 / 3 as real * factor));
    assert(lie_along(exact, group, h, (towards.0.1, towards.1.1), factor));
}

/// The direction of the difference of two directions is at the same angle to both.
proof fn lemma_line(h: Pair, k: real, p: Pair, n: Pair)
    requires
        h.is_unit(),
        k > 0 as real,
        p.is_unit(),
        n.is_unit(),
        p.minus(n) == h.scaled(k),
        p != n,
    ensures
        h.cross(p.minus(n)) == 0 as real,
        h.dot(p) > 0 as real,
        p.dot(h) > 0 as real,
        h.dot(p) == -h.dot(n),
{
    let (a, b, c, d, x, y) = (p.x, p.y, n.x, n.y, h.x, h.y);
    lemma_factors(x, y, k);
    lemma_factors(y, x, k);
    lemma_times(x * y, y * x, k);
    let (u, v) = (a - c, b - d);
    lemma_less(a, c, u);
    lemma_less(b, d, v);
    lemma_square(u);
    lemma_square(v);
    assert(a * u - c * u + (b * v - d * v) > 0 as real);
    lemma_less(a, c, a);
    lemma_less(b, d, b);
    lemma_less(a, c, c);
    lemma_less(b, d, d);
    lemma_factors(a, c, u);
    lemma_factors(b, d, v);
    lemma_factors(a, u, u);
    lemma_factors(c, u, u);
    lemma_factors(b, v, v);
    lemma_factors(d, v, v);
    lemma_times(u, x * k, a);
    lemma_times(v, y * k, b);
    lemma_times(u, x * k, c);
    lemma_times(v, y * k, d);
    lemma_factors(x, k, a);
    lemma_factors(y, k, b);
    lemma_factors(x, k, c);
    lemma_factors(y, k, d);
    lemma_spread(k, x * a, y * b);
    lemma_spread(k, x * c, y * d);
    let to_p = x * a + y * b;
    let to_n = x * c + y * d;
    assert(to_p * k == u * a + v * b);
    assert(to_n * k == u * c + v * d);
    assert(u * a + v * b == 1 as real - (a * c + b * d));
    assert(u * c + v * d == (a * c + b * d) - 1 as real);
    lemma_signs(to_p, k);
    lemma_less(to_n, to_n, k);
    lemma_cancel(to_p, -to_n, k);
    lemma_factors(a, x, k);
    lemma_factors(b, y, k);
}

/// Automatic tangents move no anchor of a shape, whatever its transform, as long as it can be taken back.
pub proof fn smoothing_leaves_the_anchors_in_place(exact: Exact, path: SubpathView, transform: DAffine2, spread: DVec2, preserve_existing: bool, i: int)
    requires
        exact.wf(),
        (exact.frame)(transform).determinant() != 0 as real,
        2 <= path.groups.len(),
        0 <= i < path.groups.len(),
    ensures
        exact.of(with_auto_tangents(path, transform, spread, preserve_existing).groups[i].anchor) == exact.of(path.groups[i].anchor),
{
    lemma_there_and_back(exact, transform, path.groups[i].anchor);
}

/// Whether a handle is there and not on top of its anchor.
fn pulled_out(handle: Option<DVec2>, anchor: DVec2) -> (result: bool)
    ensures
        result == is_pulled_out(handle, anchor),
{
    match handle {
        Some(h) => !close(h, anchor, reciprocal(100_000)),
        None => false,
    }
}

/// The line along which the handles of an anchor lie.
fn compute_handle_line(to_previous: DVec2, to_next: DVec2) -> (line: DVec2)
    ensures
        line == handle_line(to_previous, to_next),
{
    let line: DVec2 = match try_normalize(minus(to_previous, to_next)) {
        Some(direction) => direction,
        None => perp(to_previous),
    };
    if less(dot(to_previous, line), splat(0)) {
        negate(line)
    } else {
        line
    }
}

/// An anchor with the handles of a smooth curve.
fn compute_smooth_group(path: &Subpath, i: usize, spread: DVec2, preserve_existing: bool) -> (result: ManipulatorGroup)
    requires
        i < path@.groups.len(),
    ensures
        result == smooth_group(path@, i as int, spread, preserve_existing),
{
    let group: ManipulatorGroup = path.groups[i];
    let anchor: DVec2 = group.anchor;
    if preserve_existing {
        let kept: bool = pulled_out(group.in_handle, anchor) || pulled_out(group.out_handle, anchor);
        if kept || path.is_end(i) {
            return group;
        }
    }
    if equals_zero(spread) {
        return ManipulatorGroup { anchor, in_handle: None, out_handle: None, id: group.id };
    }
    let previous: DVec2 = path.groups[path.previous(i)].anchor;
    let next: DVec2 = path.groups[path.next(i)].anchor;
    let to_previous: DVec2 = normalize_or_zero(minus(previous, anchor));
    let to_next: DVec2 = normalize_or_zero(minus(next, anchor));
    if less(dot(to_previous, to_previous), reciprocal(100_000)) || less(dot(to_next, to_next), reciprocal(100_000)) {
        return group;
    }
    let line: DVec2 = compute_handle_line(to_previous, to_next);
    let in_length: DVec2 = times(divide(length(minus(anchor, previous)), splat(3)), spread);
    let out_length: DVec2 = times(divide(length(minus(next, anchor)), splat(3)), spread);
    ManipulatorGroup {
        anchor,
        in_handle: Some(plus(anchor, times(line, in_length))),
        out_handle: Some(minus(anchor, times(line, out_length))),
        id: group.id,
    }
}

/// Automatically constructs tangents (handles) for the anchor points of a path.
///
/// The `spread` is a number in both coordinates: the amount of spread for the auto-tangents, from
/// zero (sharp corner) to one (full spread). With `preserve_existing`, existing non-zero handles won't
/// be affected.
pub fn auto_tangents(path: &Subpath, transform: DAffine2, spread: DVec2, preserve_existing: bool) -> (result: Subpath)
    ensures
        result@ == with_auto_tangents(path@, transform, spread, preserve_existing),
{
    let placed: Subpath = path.apply_transform(transform);
    if path.groups.len() < 2 {
        return placed;
    }
    let mut groups: Vec<ManipulatorGroup> = Vec::new();
    let ghost all = smooth_path(placed@, spread, preserve_existing).groups;
    let mut i: usize = 0;
    while i < placed.groups.len()
        invariant
            i <= placed.groups.len(),
            all == smooth_path(placed@, spread, preserve_existing).groups,
            groups@ == all.take(i as int),
        decreases placed.groups.len() - i,
    {
        proof {
            assert(all.take(i + 1) == all.take(i as int).push(all[i as int]));
        }
        groups.push(compute_smooth_group(&placed, i, spread, preserve_existing));
        i += 1;
    }
    proof {
        assert(all.take(i as int) == all);
    }
    let smooth: Subpath = Subpath { groups, closed: placed.closed };
    smooth.apply_transform(inverse(transform))
}

} // verus!
