//! How far a corner is cut, and what the cut leaves of the segments there.
use glam::{DAffine2, DVec2};
use vstd::prelude::*;

use crate::bevel::{Bevel, BevelCut, Beveling};
use crate::geometry::{
    absolute, absolute_of, clamp, clamped_of, difference, divide, equals_zero, greatest, is_less, is_zero, largest, less, lower, lower_of, minus,
    number, number_of, plus, product, quotient, round, rounded_of, splat, splat_of, sum, times, transform_point, transformed_point, upper, upper_of,
    way_back, way_back_of, zero,
};
use crate::measures::is_below;
use crate::paths::{point_of, position_of, to_point, to_position, PathSegment};
use crate::sequences::{first_index, lemma_first_index_is, lemma_first_index_none};
use crate::vector_data::{Bezier, BezierHandles};

verus! {

/// How many steps the distance along the segments is looked for in.
pub const COARSE_STEPS: u64 = 50;

/// How many steps the distance is refined in.
pub const FINE_STEPS: u64 = 10;

/// How far a corner between two straight segments is cut along each, given the sine of half the angle
/// between them.
pub open spec fn straight_distance(bevel_length: DVec2, half_sine: DVec2) -> DVec2 {
    quotient(bevel_length, product(splat_of(2), half_sine))
}

/// How far a corner between two straight segments is cut along each, given the sine of half the angle
/// between them, so that the cut has the length.
pub fn straight_split(bevel_length: DVec2, half_sine: DVec2) -> (distance: DVec2)
    ensures
        distance == straight_distance(bevel_length, half_sine),
{
    divide(bevel_length, times(splat(2), half_sine))
}

/// One of the distances along the segments that are tried.
pub open spec fn coarse_distance(max_split: DVec2, step: u64) -> DVec2 {
    product(max_split, quotient(number_of(step), number_of(COARSE_STEPS)))
}

/// One of the distances along the segments that are tried.
pub fn coarse_sample(max_split: DVec2, step: u64) -> (distance: DVec2)
    ensures
        distance == coarse_distance(max_split, step),
{
    times(max_split, divide(number(step), number(COARSE_STEPS)))
}

/// One of the distances between two of those.
pub open spec fn fine_distance(max_split: DVec2, step: u64, fine_step: u64) -> DVec2 {
    let before = coarse_distance(max_split, (step - 1) as u64);
    sum(
        before,
        product(difference(coarse_distance(max_split, step), before), quotient(number_of(fine_step), number_of(FINE_STEPS))),
    )
}

/// One of the distances between the one of a step and the one before it.
pub fn fine_sample(max_split: DVec2, step: u64, fine_step: u64) -> (distance: DVec2)
    requires
        step > 0,
    ensures
        distance == fine_distance(max_split, step, fine_step),
{
    let before: DVec2 = coarse_sample(max_split, step - 1);
    let after: DVec2 = coarse_sample(max_split, step);
    plus(before, times(minus(after, before), divide(number(fine_step), number(FINE_STEPS))))
}

/// A share of one in thousandths.
pub open spec fn thousandths(share: DVec2) -> DVec2 {
    clamped_of(quotient(rounded_of(product(share, splat_of(1000))), splat_of(1000)), zero(), splat_of(1))
}

/// How far along the first segment and the second one the ends of the cut are, from zero to one, when it is
/// tried at a distance from the corner.
pub open spec fn coarse_places(distance: DVec2, first_length: DVec2, second_length: DVec2) -> (DVec2, DVec2) {
    (difference(splat_of(1), thousandths(quotient(distance, first_length))), thousandths(quotient(distance, second_length)))
}

/// How far along the first segment and the second one the ends of the cut are when it is tried at a distance
/// from the corner.
pub fn places_of(distance: DVec2, first_length: DVec2, second_length: DVec2) -> (places: (DVec2, DVec2))
    ensures
        places == coarse_places(distance, first_length, second_length),
{
    let thousand: DVec2 = splat(1000);
    let first: DVec2 = clamp(divide(round(times(divide(distance, first_length), thousand)), thousand), splat(0), splat(1));
    let second: DVec2 = clamp(divide(round(times(divide(distance, second_length), thousand)), thousand), splat(0), splat(1));
    (minus(splat(1), first), second)
}

/// The same for a distance between two of those that are tried, without rounding.
pub open spec fn fine_places(distance: DVec2, first_length: DVec2, second_length: DVec2) -> (DVec2, DVec2) {
    (
        difference(splat_of(1), clamped_of(quotient(distance, first_length), zero(), splat_of(1))),
        clamped_of(quotient(distance, second_length), zero(), splat_of(1)),
    )
}

/// How far along the first segment and the second one the ends of the cut are at a refined distance.
pub fn fine_places_of(distance: DVec2, first_length: DVec2, second_length: DVec2) -> (places: (DVec2, DVec2))
    ensures
        places == fine_places(distance, first_length, second_length),
{
    let first: DVec2 = clamp(divide(distance, first_length), splat(0), splat(1));
    let second: DVec2 = clamp(divide(distance, second_length), splat(0), splat(1));
    (minus(splat(1), first), second)
}

/// Whether a cut is longer than it should be.
pub open spec fn is_too_long(bevel_length: DVec2) -> spec_fn(DVec2) -> bool {
    |length: DVec2| is_less(difference(bevel_length, length), zero())
}

/// The first of the lengths of tried cuts that is too long.
pub open spec fn first_too_long(bevel_length: DVec2, lengths: Seq<DVec2>) -> Option<int> {
    first_index(lengths, is_too_long(bevel_length))
}

/// How far the best of the first tried cuts is from the length, and at which distance it was tried. Without
/// any, it is as far as can be, at no distance.
pub open spec fn best_of(bevel_length: DVec2, max_split: DVec2, lengths: Seq<DVec2>, n: nat) -> (DVec2, DVec2)
    decreases n,
{
    if n == 0 {
        (largest(), zero())
    } else {
        let before = best_of(bevel_length, max_split, lengths, (n - 1) as nat);
        let miss = absolute_of(difference(bevel_length, lengths[n - 1]));
        if is_less(miss, before.0) {
            (miss, coarse_distance(max_split, (n - 1) as u64))
        } else {
            before
        }
    }
}

/// How many of the tried cuts are looked at: up to the first that is too long.
pub open spec fn looked_at(bevel_length: DVec2, lengths: Seq<DVec2>) -> nat {
    match first_too_long(bevel_length, lengths) {
        Some(i) => (i + 1) as nat,
        None => lengths.len(),
    }
}

/// The distance at which a cut first gets too long: at one of the fine steps before a coarse one, or at that.
pub open spec fn stop_distance(bevel_length: DVec2, max_split: DVec2, lengths: Seq<DVec2>, fine_lengths: Seq<DVec2>) -> DVec2 {
    match first_too_long(bevel_length, lengths) {
        Some(step) => match first_too_long(bevel_length, fine_lengths) {
            Some(fine_step) if step > 0 => fine_distance(max_split, step as u64, (fine_step + 1) as u64),
            _ => coarse_distance(max_split, step as u64),
        },
        None => zero(),
    }
}

/// How far a corner is cut along each of its segments: where the cut first gets too long, or where it comes
/// nearest to the length if it never does.
pub open spec fn split_of(bevel_length: DVec2, max_split: DVec2, lengths: Seq<DVec2>, fine_lengths: Seq<DVec2>) -> DVec2 {
    let stop = stop_distance(bevel_length, max_split, lengths, fine_lengths);
    let nearest = best_of(bevel_length, max_split, lengths, looked_at(bevel_length, lengths)).1;
    if is_zero(stop) && is_less(zero(), nearest) {
        nearest
    } else {
        stop
    }
}

/// The step of the first tried cut that is too long.
pub fn find_too_long(bevel_length: DVec2, lengths: &Vec<DVec2>) -> (step: Option<usize>)
    ensures
        match step {
            Some(i) => first_too_long(bevel_length, lengths@) == Some(i as int) && i < lengths.len(),
            None => first_too_long(bevel_length, lengths@) is None,
        },
{
    let ghost pred = is_too_long(bevel_length);
    let mut i: usize = 0;
    while i < lengths.len()
        invariant
            i <= lengths.len(),
            pred == is_too_long(bevel_length),
            forall|k: int| 0 <= k < i ==> !pred(#[trigger] lengths@[k]),
        decreases lengths.len() - i,
    {
        if less(minus(bevel_length, lengths[i]), splat(0)) {
            proof {
                lemma_first_index_is(lengths@, pred, i as int);
            }
            return Some(i);
        }
        i += 1;
    }
    proof {
        lemma_first_index_none(lengths@, pred);
    }
    None
}

/// How far a corner is cut along each of its segments, given how long the cuts at the tried distances are:
/// those of [`coarse_sample`], and those of [`fine_sample`] before the first that is too long.
pub fn calculate_distance_to_split(bevel_length: DVec2, max_split: DVec2, lengths: &Vec<DVec2>, fine_lengths: &Vec<DVec2>) -> (distance: DVec2)
    ensures
        distance == split_of(bevel_length, max_split, lengths@, fine_lengths@),
{
    let found: Option<usize> = find_too_long(bevel_length, lengths);
    let count: usize = match found {
        Some(step) => step + 1,
        None => lengths.len(),
    };
    let mut miss: DVec2 = greatest();
    let mut nearest: DVec2 = splat(0);
    let mut i: usize = 0;
    while i < count
        invariant
            i <= count <= lengths.len(),
            (miss, nearest) == best_of(bevel_length, max_split, lengths@, i as nat),
        decreases count - i,
    {
        let own: DVec2 = absolute(minus(bevel_length, lengths[i]));
        if less(own, miss) {
            miss = own;
            nearest = coarse_sample(max_split, i as u64);
        }
        i += 1;
    }
    let stop: DVec2 = match found {
        Some(step) => {
            let coarse: DVec2 = coarse_sample(max_split, step as u64);
            match find_too_long(bevel_length, fine_lengths) {
                Some(fine_step) => if step > 0 {
                    fine_sample(max_split, step as u64, fine_step as u64 + 1)
                } else {
                    coarse
                },
                None => coarse,
            }
        },
        None => splat(0),
    };
    if equals_zero(stop) && less(splat(0), nearest) {
        nearest
    } else {
        stop
    }
}

/// What is known of the lengths of segments while the corners are cut one after the other: of the first
/// segment, and of the one that the next corner starts with, each as it was and as the cuts have left it.
#[derive(Clone, Copy, Debug)]
pub struct BevelLengths {
    pub first_original: DVec2,
    pub first: DVec2,
    pub previous_original: DVec2,
    pub previous: DVec2,
}

/// A corner to be cut: its place in the order, how many there are, the measured lengths of its two segments,
/// how far the cut should be, and whether the point at the end of the first segment and the one at the start
/// of the second are to be cut.
#[derive(Clone, Copy, Debug)]
pub struct BevelCorner {
    pub index: usize,
    pub count: usize,
    pub length: DVec2,
    pub next_length: DVec2,
    pub split: DVec2,
    pub open_end: bool,
    pub open_start: bool,
}

/// How far the two segments at a corner are cut, and how long they were before, as far as they are cut.
#[derive(Clone, Copy, Debug)]
pub struct CornerDistances {
    pub end: Option<(DVec2, DVec2)>,
    pub start: Option<(DVec2, DVec2)>,
}

/// A length below which it is not worthwhile to cut.
pub open spec fn shortest() -> DVec2 {
    quotient(splat_of(1), number_of(10_000_000_000))
}

impl BevelCorner {
    /// Whether this is the corner between the first two segments.
    pub open spec fn is_first(self) -> bool {
        self.index == 0 && self.count > 1
    }

    /// Whether this is the corner between the last segment and the first.
    pub open spec fn is_last(self) -> bool {
        self.index == self.count - 1
    }
}

/// Whether a cut is no longer than it should be, nor than half of something that is no longer than either of two segments.
pub open spec fn takes_at_most_half(distance: DVec2, split: DVec2, one: DVec2, other: DVec2) -> bool {
    &&& is_below(distance, split)
    &&& exists|shorter: DVec2|
        {
            &&& is_below(shorter, one)
            &&& is_below(shorter, other)
            &&& is_below(distance, #[trigger] quotient(shorter, splat_of(2)))
        }
}


impl BevelLengths {
    /// How long the first segment of the corner was, and how long it is.
    pub open spec fn here(self, corner: BevelCorner) -> (DVec2, DVec2) {
        if corner.index == 0 {
            (corner.length, corner.length)
        } else {
            (self.previous_original, self.previous)
        }
    }

    /// How long the second segment of the corner was, and how long it is.
    pub open spec fn next(self, corner: BevelCorner) -> (DVec2, DVec2) {
        if corner.is_last() {
            (self.first_original, self.first)
        } else {
            (corner.next_length, corner.next_length)
        }
    }

    /// How far the corner is cut: no more than half of either segment as it was.
    pub open spec fn cut_distance(self, corner: BevelCorner, nearer_first: bool) -> DVec2 {
        let here = self.here(corner).0;
        let next = self.next(corner).0;
        lower_of(
            corner.split,
            quotient(
                if nearer_first {
                    lower_of(here, next)
                } else {
                    lower_of(next, here)
                },
                splat_of(2),
            ),
        )
    }

    /// The distances by which the segments at the corner are cut.
    pub open spec fn distances(self, corner: BevelCorner) -> CornerDistances {
        CornerDistances {
            end: if corner.open_end && is_less(shortest(), self.here(corner).1) {
                Some((self.cut_distance(corner, true), self.here(corner).1))
            } else {
                None
            },
            start: if corner.open_start && is_less(shortest(), self.next(corner).1) {
                Some((self.cut_distance(corner, false), self.next(corner).1))
            } else {
                None
            },
        }
    }

    /// What is left of a length after a cut.
    pub open spec fn left(length: DVec2, distance: DVec2) -> DVec2 {
        upper_of(difference(length, distance), zero())
    }

    /// The lengths after the corner has been cut.
    pub open spec fn after(self, corner: BevelCorner) -> BevelLengths {
        let distances = self.distances(corner);
        BevelLengths {
            first_original: if corner.is_first() {
                corner.length
            } else {
                self.first_original
            },
            first: if corner.is_first() {
                match distances.end {
                    Some((distance, length)) => Self::left(length, distance),
                    None => corner.length,
                }
            } else {
                self.first
            },
            previous_original: self.next(corner).0,
            previous: match distances.start {
                Some((distance, length)) => Self::left(length, distance),
                None => self.next(corner).1,
            },
        }
    }

    /// Before the first corner.
    pub fn begin() -> (lengths: BevelLengths)
        ensures
            lengths == (BevelLengths { first_original: zero(), first: zero(), previous_original: zero(), previous: zero() }),
    {
        BevelLengths { first_original: splat(0), first: splat(0), previous_original: splat(0), previous: splat(0) }
    }

    /// Finds by how much the segments at a corner are cut, and keeps what is left of them.
    pub fn cut(&mut self, corner: BevelCorner) -> (distances: CornerDistances)
        requires
            corner.index < corner.count,
            corner.count > 1,
        ensures
            distances == old(self).distances(corner),
            *final(self) == old(self).after(corner),
            ({
                let one = if corner.index == 0 {
                    corner.length
                } else {
                    old(self).previous_original
                };
                let other = if corner.index == corner.count - 1 {
                    old(self).first_original
                } else {
                    corner.next_length
                };
                &&& distances.end matches Some((distance, _)) ==> takes_at_most_half(distance, corner.split, one, other)
                &&& distances.start matches Some((distance, _)) ==> takes_at_most_half(distance, corner.split, one, other)
            }),
    {
        let (original, length): (DVec2, DVec2) = if corner.index == 0 {
            (corner.length, corner.length)
        } else {
            (self.previous_original, self.previous)
        };
        let (next_original, next_length): (DVec2, DVec2) = if corner.index == corner.count - 1 {
            (self.first_original, self.first)
        } else {
            (corner.next_length, corner.next_length)
        };
        let least: DVec2 = divide(splat(1), number(10_000_000_000));
        let end: Option<(DVec2, DVec2)> = if corner.open_end && less(least, length) {
            let shorter: DVec2 = lower(original, next_original);
            assert(is_below(shorter, original) && is_below(shorter, next_original));
            Some((lower(corner.split, divide(shorter, splat(2))), length))
        } else {
            None
        };
        if corner.index == 0 {
            self.first_original = corner.length;
            self.first = match end {
                Some((distance, _)) => upper(minus(length, distance), splat(0)),
                None => corner.length,
            };
        }
        let start: Option<(DVec2, DVec2)> = if corner.open_start && less(least, next_length) {
            let shorter: DVec2 = lower(next_original, original);
            assert(is_below(shorter, original) && is_below(shorter, next_original));
            Some((lower(corner.split, divide(shorter, splat(2))), next_length))
        } else {
            None
        };
        self.previous_original = next_original;
        self.previous = match start {
            Some((distance, _)) => upper(minus(next_length, distance), splat(0)),
            None => next_length,
        };
        CornerDistances { end, start }
    }
}

/// How far along a segment, from zero to one of its length, a distance is.
pub open spec fn split_share(distance: DVec2, length: DVec2) -> DVec2 {
    clamped_of(quotient(distance, length), zero(), splat_of(1))
}

/// How far along a segment, from zero to one of its length, a distance is.
pub fn share_of(distance: DVec2, length: DVec2) -> (share: DVec2)
    ensures
        share == split_share(distance, length),
{
    clamp(divide(distance, length), splat(0), splat(1))
}

/// A curve of a shape as a segment of a path, under the transform, and as a line if it is straight.
pub open spec fn segment_of_curve(curve: Bezier, transform: DAffine2, is_linear: bool) -> PathSegment {
    let segment = raw_segment(curve).image(transform);
    if is_linear {
        PathSegment::Line(point_of(position_of(segment.start())), point_of(position_of(segment.end())))
    } else {
        segment
    }
}

/// A curve of a shape as a segment of a path.
pub open spec fn raw_segment(curve: Bezier) -> PathSegment {
    let start = point_of(curve.start);
    let end = point_of(curve.end);
    match curve.handles {
        BezierHandles::Linear => PathSegment::Line(start, end),
        BezierHandles::Quadratic { handle } => PathSegment::Quad(start, point_of(handle), end),
        BezierHandles::Cubic { handle_start, handle_end } => PathSegment::Cubic(start, point_of(handle_start), point_of(handle_end), end),
    }
}

/// A curve of a shape as a segment of a path, under the transform.
pub fn handles_to_segment(curve: Bezier, transform: DAffine2) -> (segment: PathSegment)
    ensures
        segment == raw_segment(curve).image(transform),
{
    let start: kurbo::Point = to_point(curve.start);
    let end: kurbo::Point = to_point(curve.end);
    let segment: PathSegment = match curve.handles {
        BezierHandles::Linear => PathSegment::Line(start, end),
        BezierHandles::Quadratic { handle } => PathSegment::Quad(start, to_point(handle), end),
        BezierHandles::Cubic { handle_start, handle_end } => PathSegment::Cubic(start, to_point(handle_start), to_point(handle_end), end),
    };
    segment.transformed(transform)
}

/// The handles of a segment, as they belong to the shape.
pub open spec fn handles_of(segment: PathSegment, back: DAffine2) -> BezierHandles {
    match segment {
        PathSegment::Line(_, _) => BezierHandles::Linear,
        PathSegment::Quad(_, p1, _) => BezierHandles::Quadratic { handle: transformed_point(back, position_of(p1)) },
        PathSegment::Cubic(_, p1, p2, _) => BezierHandles::Cubic {
            handle_start: transformed_point(back, position_of(p1)),
            handle_end: transformed_point(back, position_of(p2)),
        },
    }
}

fn segment_to_handles(segment: PathSegment, back: DAffine2) -> (handles: BezierHandles)
    ensures
        handles == handles_of(segment, back),
{
    match segment {
        PathSegment::Line(_, _) => BezierHandles::Linear,
        PathSegment::Quad(_, p1, _) => BezierHandles::Quadratic { handle: transform_point(back, to_position(p1)) },
        PathSegment::Cubic(_, p1, p2, _) => BezierHandles::Cubic {
            handle_start: transform_point(back, to_position(p1)),
            handle_end: transform_point(back, to_position(p2)),
        },
    }
}

/// What is left of the first segment of a corner that is cut at a place, which counts from its end.
pub open spec fn cut_at_end(segment: PathSegment, place: Option<DVec2>) -> PathSegment {
    match place {
        Some(t) => segment.reverse().spec_part(t, splat_of(1)).reverse(),
        None => segment,
    }
}

/// What is left of the second segment of a corner that is cut at a place.
pub open spec fn cut_at_start(segment: PathSegment, place: Option<DVec2>) -> PathSegment {
    match place {
        Some(t) => segment.spec_part(t, splat_of(1)),
        None => segment,
    }
}

/// The cut of a corner between two curves, each at the place where it is cut, if it is, and straight or not.
pub open spec fn corner_cut(first: Bezier, second: Bezier, transform: DAffine2, linear: (bool, bool), places: (Option<DVec2>, Option<DVec2>)) -> BevelCut {
    let back = way_back_of(transform);
    let one = cut_at_end(segment_of_curve(first, transform, linear.0), places.0);
    let other = cut_at_start(segment_of_curve(second, transform, linear.1), places.1);
    BevelCut {
        cuts_end: places.0 is Some,
        end: transformed_point(back, position_of(one.end())),
        handles: handles_of(one, back),
        cuts_start: places.1 is Some,
        start: transformed_point(back, position_of(other.start())),
        next_handles: handles_of(other, back),
    }
}

/// A segment of a path as a line, if it is straight.
pub(crate) fn straightened(segment: PathSegment, is_linear: bool) -> (result: PathSegment)
    ensures
        result == (if is_linear {
            PathSegment::Line(point_of(position_of(segment.start())), point_of(position_of(segment.end())))
        } else {
            segment
        }),
{
    if is_linear {
        PathSegment::Line(to_point(to_position(segment.start())), to_point(to_position(segment.end())))
    } else {
        segment
    }
}

/// The cut of a corner between two curves of a shape, given whether each is straight and the place where it is
/// cut, if it is. The first place counts from the end of the first curve.
pub fn cut_corner(first: Bezier, second: Bezier, transform: DAffine2, linear: (bool, bool), places: (Option<DVec2>, Option<DVec2>)) -> (cut: BevelCut)
    ensures
        cut == corner_cut(first, second, transform, linear, places),
{
    let back: DAffine2 = way_back(transform);
    let whole: PathSegment = straightened(handles_to_segment(first, transform), linear.0);
    let other_whole: PathSegment = straightened(handles_to_segment(second, transform), linear.1);
    let one: PathSegment = match places.0 {
        Some(t) => whole.reverse().part(t, splat(1)).reverse(),
        None => whole,
    };
    let other: PathSegment = match places.1 {
        Some(t) => other_whole.part(t, splat(1)),
        None => other_whole,
    };
    BevelCut {
        cuts_end: places.0.is_some(),
        end: transform_point(back, to_position(one.end())),
        handles: segment_to_handles(one, back),
        cuts_start: places.1.is_some(),
        start: transform_point(back, to_position(other.start())),
        next_handles: segment_to_handles(other, back),
    }
}

impl Beveling {
    /// Whether the end of a segment is at a corner that is still to be cut.
    pub open spec fn is_open_end(self, first: int) -> bool {
        self.connected[self.segments[first].end as int] > 0
    }

    /// Whether the start of a segment is at a corner that is still to be cut, after the end of another one has
    /// been cut or not.
    pub open spec fn is_open_start(self, first: int, second: int, cuts_end: bool) -> bool {
        let start = self.segments[second].start as int;
        let moved = if cuts_end && self.is_open_end(first) && self.segments[first].end == start {
            1int
        } else {
            0
        };
        self.connected[start] - moved > 0
    }
}

impl Bevel {
    /// Whether the end of a segment is at a corner that is still to be cut.
    pub fn is_open_end(&self, first: usize) -> (result: bool)
        requires
            first < self@.segments.len(),
            self@.segments[first as int].end < self@.connected.len(),
        ensures
            result == self@.is_open_end(first as int),
    {
        let end: usize = self.segments[first].end;
        proof {
            assert(self@.segments[first as int].end == end);
            assert(self@.connected[end as int] == self.connected@[end as int]);
        }
        self.connected[end] > 0
    }

    /// Whether the start of a segment is at a corner that is still to be cut, after the end of another one has
    /// been cut or not.
    pub fn is_open_start(&self, first: usize, second: usize, cuts_end: bool) -> (result: bool)
        requires
            self@.can_cut(first as int, second as int),
        ensures
            result == self@.is_open_start(first as int, second as int, cuts_end),
    {
        let end: usize = self.segments[first].end;
        let start: usize = self.segments[second].start;
        proof {
            assert(self@.segments[first as int].end == end);
            assert(self@.segments[second as int].start == start);
            assert(self@.connected[start as int] == self.connected@[start as int]);
        }
        let open_end: bool = self.is_open_end(first);
        if cuts_end && open_end && end == start {
            self.connected[start] > 1
        } else {
            self.connected[start] > 0
        }
    }
}

/// Whether an end is to be cut is read as the cut itself takes it: the start of the second segment is moved if and
/// only if it is open after the first has been cut.
pub proof fn open_start_is_read_after_the_end(bevel: Beveling, first: int, second: int, cut: BevelCut)
    requires
        bevel.wf(),
        bevel.can_cut(first, second),
    ensures
        bevel.is_open_start(first, second, cut.cuts_end) == (bevel.cut_end(first, cut).connected[bevel.segments[second].start as int] > 0),
{
}

} // verus!
