//! Positions along the paths of a shape.
use glam::{DAffine2, DVec2};
use vstd::prelude::*;

use crate::geometry::{
    angle, angles_between, at_most, clamp, clamped_of, difference, equals_zero, fraction, fraction_of, holding_twice_is_holding, is_at_most, is_less, is_zero, less, minus, negate, negation, number, number_of,
    plus, reciprocal, reciprocal_of, splat, splat_of, sum, vector, vector_of, whole, whole_of, zero,
};
use crate::paths::{apply_affine, map_path, transforming, PathElement};

verus! {

/// A position on one of several paths: which of them, and how far along it from zero to one.
#[derive(Clone, Copy, Debug)]
pub struct PathPosition {
    pub index: usize,
    pub t: DVec2,
}

/// The progress held between zero and the number of paths, and counted from the other end if reversed.
pub open spec fn held_progress(progress: DVec2, count: usize, reverse: bool) -> DVec2 {
    let end = number_of(count as u64);
    let held = clamped_of(progress, zero(), end);
    if reverse {
        difference(end, held)
    } else {
        held
    }
}

/// The position for a progress: its whole part selects the path and what follows the point the place along
/// it. The end of all paths is the end of the last one.
pub open spec fn position_at(progress: DVec2, count: usize, reverse: bool) -> Option<PathPosition> {
    let end = number_of(count as u64);
    let held = held_progress(progress, count, reverse);
    let index = if is_at_most(end, held) {
        count - 1
    } else {
        whole_of(held) as int
    };
    if 0 <= index < count {
        Some(
            PathPosition {
                index: index as usize,
                t: if is_at_most(end, held) && is_at_most(held, end) {
                    splat_of(1)
                } else {
                    fraction_of(held)
                },
            },
        )
    } else {
        None
    }
}

/// What is left of all paths after a progress.
pub open spec fn rest_after(progress: DVec2, count: usize) -> DVec2 {
    difference(number_of(count as u64), held_progress(progress, count, false))
}

/// Reversed, a progress counts from the end of all paths: it leads where what is left after it leads forward. What is
/// left is between zero and the number of paths, or not a number.
pub proof fn reversed_progress_counts_from_the_end(progress: DVec2, count: usize)
    requires
        !is_less(rest_after(progress, count), zero()),
        !is_less(number_of(count as u64), rest_after(progress, count)),
    ensures
        held_progress(progress, count, true) == rest_after(progress, count),
        position_at(progress, count, true) == position_at(rest_after(progress, count), count, false),
{
}

/// The position for a progress along so many paths. One beyond the ends leads where the nearer end does, and a reversed
/// one where what is left after it leads forward.
pub fn locate(progress: DVec2, count: usize, reverse: bool) -> (position: Option<PathPosition>)
    ensures
        position == position_at(progress, count, reverse),
        position == position_at(held_progress(progress, count, false), count, reverse),
        reverse ==> position == position_at(rest_after(progress, count), count, false),
{
    if count == 0 {
        return None;
    }
    let low: DVec2 = splat(0);
    let end: DVec2 = number(count as u64);
    let clamped: DVec2 = clamp(progress, low, end);
    let rest: DVec2 = minus(end, clamped);
    proof {
        holding_twice_is_holding(progress, zero(), end);
        reversed_progress_counts_from_the_end(progress, count);
    }
    let held: DVec2 = if reverse {
        rest
    } else {
        clamped
    };
    let index: u64 = if at_most(end, held) {
        (count - 1) as u64
    } else {
        whole(held)
    };
    if index < count as u64 {
        let t: DVec2 = if at_most(end, held) && at_most(held, end) {
            splat(1)
        } else {
            fraction(held)
        };
        Some(PathPosition { index: index as usize, t })
    } else {
        None
    }
}

/// A path with the transform of the shape that it belongs to.
#[derive(Debug)]
pub struct PlacedPath {
    pub elements: Vec<PathElement>,
    pub transform: DAffine2,
}

/// The path that a progress leads to, under its transform, and how far along it the progress is. There is
/// none without paths. A progress beyond the ends leads where the nearer end does, and a reversed one where what is left
/// after it leads forward.
pub fn position_on_path(paths: &Vec<PlacedPath>, progress: DVec2, reverse: bool) -> (found: Option<(Vec<PathElement>, DVec2)>)
    ensures
        match position_at(progress, paths@.len() as usize, reverse) {
            Some(position) => {
                let path = paths@[position.index as int];
                found matches Some((elements, t)) && elements@ == map_path(path.elements@, transforming(path.transform)) && t == position.t
            },
            None => found is None,
        },
        position_at(progress, paths@.len() as usize, reverse) == position_at(
            held_progress(progress, paths@.len() as usize, false),
            paths@.len() as usize,
            reverse,
        ),
        reverse ==> position_at(progress, paths@.len() as usize, true) == position_at(
            rest_after(progress, paths@.len() as usize),
            paths@.len() as usize,
            false,
        ),
{
    match locate(progress, paths.len(), reverse) {
        Some(position) => {
            let path: &PlacedPath = &paths[position.index];
            Some((apply_affine(&path.elements, path.transform), position.t))
        },
        None => None,
    }
}

/// Where the tangent is measured again if there is none at a place: a little nearer to the middle.
pub open spec fn retry_place(t: DVec2) -> DVec2 {
    sum(
        t,
        if is_less(reciprocal_of(2), t) {
            negation(reciprocal_of(1000))
        } else {
            reciprocal_of(1000)
        },
    )
}

/// Where the tangent is measured again if there is none at a place.
pub fn tangent_retry(t: DVec2) -> (place: DVec2)
    ensures
        place == retry_place(t),
{
    if less(reciprocal(2), t) {
        plus(t, negate(reciprocal(1000)))
    } else {
        plus(t, reciprocal(1000))
    }
}

/// The first of two tangents that has a direction.
pub open spec fn chosen_tangent(first: DVec2, second: DVec2) -> Option<DVec2> {
    if !is_zero(first) {
        Some(first)
    } else if !is_zero(second) {
        Some(second)
    } else {
        None
    }
}

/// The axis that the angle of a tangent is measured from.
pub open spec fn measured_from(reverse: bool) -> DVec2 {
    if reverse {
        negation(vector_of(1, 0))
    } else {
        vector_of(1, 0)
    }
}

/// The tangent and the axis between which the angle is measured, for the tangent at a place and the one at
/// [`tangent_retry`]. There are none if neither tangent has a direction.
pub fn tangent_and_axis(first: DVec2, second: DVec2, reverse: bool) -> (pair: Option<(DVec2, DVec2)>)
    ensures
        pair == (match chosen_tangent(first, second) {
            Some(tangent) => Some((tangent, measured_from(reverse))),
            None => None,
        }),
{
    let axis: DVec2 = if reverse {
        negate(vector(1, 0))
    } else {
        vector(1, 0)
    };
    if !equals_zero(first) {
        Some((first, axis))
    } else if !equals_zero(second) {
        Some((second, axis))
    } else {
        None
    }
}

/// The angle of the tangent at a place on a path, in radians, or zero where there is no tangent.
///
/// The angle from the tangent to the axis, which are those of [`tangent_and_axis`], is measured here, and the
/// result is its negation.
pub fn tangent_on_path(first: DVec2, second: DVec2, reverse: bool) -> (result: DVec2)
    ensures
        chosen_tangent(first, second) is None ==> result == zero(),
        chosen_tangent(first, second) matches Some(tangent) ==> exists|measured: DVec2|
            #[trigger] angles_between(tangent, measured_from(reverse)).contains(measured) && result == negation(measured),
{
    match tangent_and_axis(first, second, reverse) {
        Some((tangent, axis)) => negate(angle(tangent, axis)),
        None => splat(0),
    }
}

/// A piece of a shape one of whose paths was split.
#[derive(Clone, Copy, Debug, PartialEq, Eq, Structural)]
pub enum PathPiece {
    /// One of the paths as it was.
    Whole(usize),
    /// What comes before the place of the split.
    First,
    /// What comes after the place of the split.
    Second,
    /// What comes after the place of the split and, from where it ends on, what comes before, as one open path.
    Reopened,
}

/// Those of the first paths that belong to the same row as the chosen one, without that.
pub open spec fn other_paths(row_of: Seq<usize>, chosen: int, n: nat) -> Seq<PathPiece>
    decreases n,
{
    if n == 0 {
        Seq::empty()
    } else {
        let before = other_paths(row_of, chosen, (n - 1) as nat);
        if n - 1 != chosen && row_of[n - 1] == row_of[chosen] {
            before.push(PathPiece::Whole((n - 1) as usize))
        } else {
            before
        }
    }
}

/// The pieces of the row whose path was to be split: its other paths, then the two parts of an open path or the one
/// open path that a closed one becomes, or the path itself if it could not be split.
pub open spec fn split_pieces(row_of: Seq<usize>, chosen: int, closed: bool, was_split: bool) -> Seq<PathPiece> {
    let others = other_paths(row_of, chosen, row_of.len());
    if !was_split {
        others.push(PathPiece::Whole(chosen as usize))
    } else if closed {
        others.push(PathPiece::Reopened)
    } else {
        others.push(PathPiece::First).push(PathPiece::Second)
    }
}

/// Whether a path is closed: its last element closes it.
pub open spec fn ends_closed(elements: Seq<PathElement>) -> bool {
    elements.len() > 0 && elements.last() is ClosePath
}

/// Whether a path is closed.
pub fn is_closed(elements: &Vec<PathElement>) -> (closed: bool)
    ensures
        closed == ends_closed(elements@),
{
    if elements.len() == 0 {
        return false;
    }
    matches!(elements[elements.len() - 1], PathElement::ClosePath)
}

/// The open path that a closed one becomes when it is split: the second part, and without moving the pen, the
/// first part.
pub open spec fn reopened(first: Seq<PathElement>, second: Seq<PathElement>) -> Seq<PathElement> {
    second + if first.len() > 0 {
        first.skip(1)
    } else {
        first
    }
}

/// The open path that a closed one becomes when it is split into two parts.
pub fn reopen(first: &Vec<PathElement>, second: &Vec<PathElement>) -> (path: Vec<PathElement>)
    ensures
        path@ == reopened(first@, second@),
{
    let mut path: Vec<PathElement> = Vec::new();
    let mut i: usize = 0;
    while i < second.len()
        invariant
            i <= second.len(),
            path@ == second@.take(i as int),
        decreases second.len() - i,
    {
        path.push(second[i]);
        i += 1;
    }
    let mut k: usize = 1;
    while k < first.len()
        invariant
            first.len() == 0 || 1 <= k <= first.len(),
            first.len() == 0 ==> k == 1,
            path@ == second@ + if first.len() == 0 {
                Seq::empty()
            } else {
                first@.subrange(1, k as int)
            },
        decreases first.len() - k,
    {
        path.push(first[k]);
        k += 1;
    }
    proof {
        assert(path@ == reopened(first@, second@));
    }
    path
}

/// A closed path that is split becomes one open path: if neither part closes its path, the path that both make
/// does not either, it begins where the second part does, and it draws all that both parts draw after moving the
/// pen.
pub proof fn splitting_opens_a_closed_path(first: Seq<PathElement>, second: Seq<PathElement>)
    requires
        first.len() > 0,
        second.len() > 0,
        !first.contains(PathElement::ClosePath),
        !second.contains(PathElement::ClosePath),
    ensures
        !reopened(first, second).contains(PathElement::ClosePath),
        !ends_closed(reopened(first, second)),
        reopened(first, second)[0] == second[0],
        reopened(first, second).len() == first.len() + second.len() - 1,
{
    let path = reopened(first, second);
    assert forall|i: int| 0 <= i < path.len() implies #[trigger] path[i] != PathElement::ClosePath by {
        if i < second.len() {
            assert(second.contains(second[i]));
        } else {
            assert(first.contains(first[i - second.len() + 1]));
        }
    }
    assert(path.last() == path[path.len() - 1]);
}

/// The pieces that the row with the chosen path holds after it was split, given the row of each path: two new paths
/// from an open one, or one open path from a closed one.
pub fn split_path(row_of: &Vec<usize>, chosen: usize, closed: bool, was_split: bool) -> (pieces: Vec<PathPiece>)
    requires
        chosen < row_of@.len(),
    ensures
        pieces@ == split_pieces(row_of@, chosen as int, closed, was_split),
{
    let mut pieces: Vec<PathPiece> = Vec::new();
    let mut i: usize = 0;
    while i < row_of.len()
        invariant
            i <= row_of.len(),
            chosen < row_of@.len(),
            pieces@ == other_paths(row_of@, chosen as int, i as nat),
        decreases row_of.len() - i,
    {
        if i != chosen && row_of[i] == row_of[chosen] {
            pieces.push(PathPiece::Whole(i));
        }
        i += 1;
    }
    if !was_split {
        pieces.push(PathPiece::Whole(chosen));
    } else if closed {
        pieces.push(PathPiece::Reopened);
    } else {
        pieces.push(PathPiece::First);
        pieces.push(PathPiece::Second);
    }
    pieces
}

/// The other paths are those of the same row.
proof fn lemma_other_paths(row_of: Seq<usize>, chosen: int, n: nat)
    requires
        n <= row_of.len() <= usize::MAX,
    ensures
        forall|i: int|
            0 <= i <= usize::MAX ==> (#[trigger] other_paths(row_of, chosen, n).contains(PathPiece::Whole(i as usize)) <==> i < n && i
                != chosen && row_of[i] == row_of[chosen]),
    decreases n,
{
    if n > 0 {
        let before = other_paths(row_of, chosen, (n - 1) as nat);
        let after = other_paths(row_of, chosen, n);
        lemma_other_paths(row_of, chosen, (n - 1) as nat);
        assert forall|i: int| 0 <= i <= usize::MAX implies (#[trigger] after.contains(PathPiece::Whole(i as usize)) <==> i < n && i
            != chosen && row_of[i] == row_of[chosen]) by {
            let piece = PathPiece::Whole(i as usize);
            assert(before.contains(piece) <==> i < n - 1 && i != chosen && row_of[i] == row_of[chosen]);
            if n - 1 != chosen && row_of[n - 1] == row_of[chosen] {
                assert(after == before.push(PathPiece::Whole((n - 1) as usize)));
                if before.contains(piece) {
                    let k = choose|k: int| 0 <= k < before.len() && before[k] == piece;
                    assert(after[k] == piece);
                }
                assert(after[before.len() as int] == PathPiece::Whole((n - 1) as usize));
                if after.contains(piece) && i != n - 1 {
                    let k = choose|k: int| 0 <= k < after.len() && after[k] == piece;
                    assert(before[k] == piece);
                }
            }
        }
    }
}

/// Splitting a path keeps every other path of its row and takes none of another row.
pub proof fn splitting_keeps_the_row(row_of: Seq<usize>, chosen: int, closed: bool, was_split: bool, i: int)
    requires
        0 <= chosen < row_of.len() <= usize::MAX,
        0 <= i < row_of.len(),
        i != chosen,
    ensures
        split_pieces(row_of, chosen, closed, was_split).contains(PathPiece::Whole(i as usize)) <==> row_of[i] == row_of[chosen],
        split_pieces(row_of, chosen, closed, was_split).contains(PathPiece::Whole(chosen as usize)) <==> !was_split,
{
    let others = other_paths(row_of, chosen, row_of.len());
    let pieces = split_pieces(row_of, chosen, closed, was_split);
    lemma_other_paths(row_of, chosen, row_of.len());
    let piece = PathPiece::Whole(i as usize);
    let own = PathPiece::Whole(chosen as usize);
    assert(others.contains(piece) <==> row_of[i] == row_of[chosen]);
    assert(!others.contains(own));
    if others.contains(piece) {
        let k = choose|k: int| 0 <= k < others.len() && others[k] == piece;
        assert(pieces[k] == piece);
    }
    if pieces.contains(piece) {
        let k = choose|k: int| 0 <= k < pieces.len() && pieces[k] == piece;
        assert(others[k] == piece);
    }
    if was_split {
        if pieces.contains(own) {
            let k = choose|k: int| 0 <= k < pieces.len() && pieces[k] == own;
            assert(others[k] == own);
        }
    } else {
        assert(pieces[others.len() as int] == own);
    }
}

} // verus!
