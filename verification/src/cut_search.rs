//! The search for how far a corner is cut along its two segments, so that the cut has a length.
//!
//! Between the steps of the search the parameters are found where a share of the length of a segment is reached.
use glam::DVec2;
use kurbo::Point;
use vstd::prelude::*;

use crate::chamfer::{
    calculate_distance_to_split, coarse_distance, coarse_places, coarse_sample, find_too_long, fine_distance, fine_places, fine_places_of, fine_sample,
    first_too_long, places_of, split_of, straight_distance, straight_split, COARSE_STEPS, FINE_STEPS,
};
use crate::exact::{
    lemma_cancel, lemma_direction_is_unique, lemma_factors, lemma_four_factors, lemma_half_angle, lemma_less, lemma_quotient, lemma_scaled_dot,
    lemma_signs, lemma_square, lemma_squares, lemma_times, Exact, Pair,
};
use crate::geometry::{
    arc_cosine, arc_cosines_of, difference, directions_of, divide, from_angle, length_of, lower, lower_of, minus, quotient, splat, splat_of, y, y_of,
};
use crate::paths::{
    distance, is_perimeter, normalize, normalized_of, perimeter, position_of, scalar_product, scalar_product_of, to_position, PathSegment,
};

verus! {

/// The cosine of the angle between two straight segments that meet where the first one ends.
pub open spec fn corner_cosine(first: PathSegment, second: PathSegment) -> DVec2 {
    let corner = position_of(first.end());
    scalar_product_of(
        normalized_of(difference(corner, position_of(first.start()))),
        normalized_of(difference(corner, position_of(second.end()))),
    )
}

/// Whether a number is the sine of half an angle.
pub open spec fn is_sine_of_half(angle: DVec2, half_sine: DVec2) -> bool {
    exists|direction: DVec2| #[trigger] directions_of(quotient(angle, splat_of(2))).contains(direction) && half_sine == y_of(direction)
}

/// Whether a number is the sine of half the angle between two straight segments.
pub open spec fn is_corner_half_sine(first: PathSegment, second: PathSegment, half_sine: DVec2) -> bool {
    exists|angle: DVec2| #[trigger] arc_cosines_of(corner_cosine(first, second)).contains(angle) && is_sine_of_half(angle, half_sine)
}

/// How far a corner between two straight segments is cut along each, so that the cut has the length.
///
/// The sine of half the angle between them is computed here; what follows from it is what [`straight_split`] does.
pub fn straight_cut(first: PathSegment, second: PathSegment, bevel_length: DVec2) -> (split: DVec2)
    ensures
        exists|half_sine: DVec2|
            #[trigger] is_corner_half_sine(first, second, half_sine) && split == straight_distance(bevel_length, half_sine),
        is_straight_cut(first, second, bevel_length, split),
{
    let corner: DVec2 = to_position(first.end());
    let one: DVec2 = normalize(minus(corner, to_position(first.start())));
    let other: DVec2 = normalize(minus(corner, to_position(second.end())));
    let angle: DVec2 = arc_cosine(scalar_product(one, other));
    let direction: DVec2 = from_angle(divide(angle, splat(2)));
    let half_sine: DVec2 = y(direction);
    proof {
        assert(directions_of(quotient(angle, splat_of(2))).contains(direction));
        assert(is_sine_of_half(angle, half_sine));
        assert(arc_cosines_of(corner_cosine(first, second)).contains(angle));
        assert(is_corner_half_sine(first, second, half_sine));
    }
    straight_split(bevel_length, half_sine)
}

/// Whether a corner between two straight segments may be cut so far along each, for a cut of the length.
pub open spec fn is_straight_cut(first: PathSegment, second: PathSegment, bevel_length: DVec2, split: DVec2) -> bool {
    exists|half_sine: DVec2| #[trigger] is_corner_half_sine(first, second, half_sine) && split == straight_distance(bevel_length, half_sine)
}

/// The cut of a straight corner has the length that it should have: the points on both edges at the distance from the
/// corner that [`straight_cut`] gives are so far from each other, whatever the angle at the corner.
///
/// The edges lead from the corner to the start of the first segment and to the end of the second one, which are in
/// different directions.
pub proof fn a_straight_cut_has_the_length(
    exact: Exact,
    first: PathSegment,
    second: PathSegment,
    bevel_length: DVec2,
    split: DVec2,
    back: (Pair, real),
    ahead: (Pair, real),
    length: real,
)
    requires
        exact.wf(),
        is_straight_cut(first, second, bevel_length, split),
        exact.is_number(bevel_length, length),
        exact.point(first.start()).minus(exact.point(first.end())).points_along(back.0, back.1),
        exact.point(second.end()).minus(exact.point(first.end())).points_along(ahead.0, ahead.1),
        back.0 != ahead.0,
    ensures
        ({
            let corner = exact.point(first.end());
            let one = corner.plus(back.0.scaled(exact.of(split).x));
            let other = corner.plus(ahead.0.scaled(exact.of(split).x));
            &&& one.minus(other).dot(one.minus(other)) == length * length
            &&& length >= 0 as real ==> exact.of(split).x >= 0 as real
        }),
{
    let half_sine = choose|half_sine: DVec2| #[trigger]
        is_corner_half_sine(first, second, half_sine) && split == straight_distance(bevel_length, half_sine);
    let cosine = corner_cosine(first, second);
    let angle = choose|angle: DVec2| #[trigger] arc_cosines_of(cosine).contains(angle) && is_sine_of_half(angle, half_sine);
    let direction = choose|direction: DVec2| #[trigger]
        directions_of(quotient(angle, splat_of(2))).contains(direction) && half_sine == y_of(direction);
    let corner = position_of(first.end());
    let (u, w) = (back.0, ahead.0);
    let one = normalized_of(difference(corner, position_of(first.start())));
    let other = normalized_of(difference(corner, position_of(second.end())));
    lemma_opposite_direction(exact, corner, position_of(first.start()), u, back.1);
    lemma_opposite_direction(exact, corner, position_of(second.end()), w, ahead.1);
    assert(exact.of(one) == u.opposite());
    assert(exact.of(other) == w.opposite());
    let c = u.dot(w);
    lemma_opposites_dot(u, w);
    assert(exact.of(cosine).x == c);
    lemma_between_units(u, w);
    let t = exact.of(angle).x;
    lemma_half_angle(exact, t);
    let s = (exact.sin)(t / 2 as real);
    assert(exact.of(half_sine) == Pair::both(s));
    if s == 0 as real {
        lemma_times(s, 0 as real, s);
        assert((0 as real) * s == 0 as real) by (nonlinear_arith);
    }
    let d = exact.of(split).x;
    lemma_quotient(length, 2 as real * s);
    lemma_chord(exact.of(corner), u, w, s, d);
    lemma_times(d * (2 as real * s), length, d * (2 as real * s));
    lemma_times(d * (2 as real * s), length, length);
    lemma_signs(d, 2 as real * s);
}

/// Two vectors and their opposites are at the same angle.
proof fn lemma_opposites_dot(u: Pair, w: Pair)
    ensures
        u.opposite().dot(w.opposite()) == u.dot(w),
{
    let (a, b, c, d) = (u.x, u.y, w.x, w.y);
    lemma_less(a, a, -c);
    lemma_less(c, c, a);
    lemma_less(b, b, -d);
    lemma_less(d, d, b);
}

/// The cosine of the angle between two directions.
proof fn lemma_between_units(u: Pair, w: Pair)
    requires
        u.is_unit(),
        w.is_unit(),
        u != w,
    ensures
        -1 as real <= u.dot(w) < 1 as real,
{
    let (a, b, c, d) = (u.x, u.y, w.x, w.y);
    lemma_squares(a, c);
    lemma_squares(b, d);
    lemma_square(a + c);
    lemma_square(b + d);
    lemma_square(a - c);
    lemma_square(b - d);
}

/// How far two points are from each other that are at the same distance from a corner.
proof fn lemma_chord(corner: Pair, u: Pair, w: Pair, s: real, d: real)
    requires
        u.is_unit(),
        w.is_unit(),
        u.dot(w) == 1 as real - 2 as real * (s * s),
    ensures
        ({
            let chord = corner.plus(u.scaled(d)).minus(corner.plus(w.scaled(d)));
            chord.dot(chord) == (d * (2 as real * s)) * (d * (2 as real * s))
        }),
{
    let chord = corner.plus(u.scaled(d)).minus(corner.plus(w.scaled(d)));
    let apart = u.minus(w);
    let (a, b, c, e) = (u.x, u.y, w.x, w.y);
    lemma_less(a, c, d);
    lemma_less(b, e, d);
    assert(chord == apart.scaled(d));
    lemma_scaled_dot(apart, d);
    lemma_squares(a, c);
    lemma_squares(b, e);
    lemma_times(apart.dot(apart), 4 as real * (s * s), d * d);
    let double = 2 as real * s;
    lemma_four_factors(2 as real, s, 2 as real, s);
    lemma_four_factors(d, double, d, double);
    lemma_factors(d * d, double * double, d);
}

/// The direction from one point to another is opposite to the one back.
proof fn lemma_opposite_direction(exact: Exact, from: DVec2, to: DVec2, direction: Pair, length: real)
    requires
        exact.wf(),
        exact.of(to).minus(exact.of(from)).points_along(direction, length),
    ensures
        exact.of(normalized_of(difference(from, to))) == direction.opposite(),
{
    let away = exact.of(difference(from, to));
    let (x, y) = (direction.x, direction.y);
    assert((-x) * length == -(x * length)) by (nonlinear_arith);
    assert((-y) * length == -(y * length)) by (nonlinear_arith);
    assert(away == direction.opposite().scaled(length));
    lemma_opposites_dot(direction, direction);
    if away.is_zero() {
        assert((0 as real) * length == 0 as real) by (nonlinear_arith);
        lemma_cancel(-x, 0 as real, length);
        lemma_cancel(-y, 0 as real, length);
        assert((0 as real) * (0 as real) == 0 as real) by (nonlinear_arith);
    }
    let found = normalized_of(difference(from, to));
    lemma_direction_is_unique(away, direction.opposite(), exact.of(found), length, exact.of(length_of(difference(from, to))).x);
}

/// A search, as far as it has come: the segments at the corner and their lengths, the length that the cut should have,
/// and the lengths of the cuts tried so far, at coarse steps and at fine ones.
#[derive(Debug)]
pub struct CutSearch {
    pub segments: (PathSegment, PathSegment),
    pub segment_lengths: (DVec2, DVec2),
    pub bevel_length: DVec2,
    pub lengths: Vec<DVec2>,
    pub fine_lengths: Vec<DVec2>,
}

/// Whether none of the cuts but the last is too long.
pub open spec fn only_last_too_long(bevel_length: DVec2, lengths: Seq<DVec2>) -> bool {
    match first_too_long(bevel_length, lengths) {
        Some(i) => i == lengths.len() - 1,
        None => true,
    }
}

/// The length of the cut between the points at two parameters.
pub open spec fn length_of_cut(segments: (PathSegment, PathSegment), parameters: (DVec2, DVec2)) -> DVec2 {
    length_of(difference(position_of(segments.0.point_at(parameters.0)), position_of(segments.1.point_at(parameters.1))))
}

impl CutSearch {
    /// No more is cut than the shorter of the segments.
    pub open spec fn max_split(self) -> DVec2 {
        lower_of(self.segment_lengths.0, self.segment_lengths.1)
    }

    /// The step of the cut that is too long.
    pub open spec fn too_long(self) -> Option<int> {
        first_too_long(self.bevel_length, self.lengths@)
    }

    /// Whether the next cut is tried at a coarse step: none has been too long.
    pub open spec fn is_coarse(self) -> bool {
        self.too_long() is None && self.lengths@.len() <= COARSE_STEPS
    }

    /// Whether the next cut is tried at a fine step: one at a coarse step after the first has been too long, and none at
    /// a fine step.
    pub open spec fn is_fine(self) -> bool {
        &&& self.too_long() matches Some(step) && step > 0
        &&& first_too_long(self.bevel_length, self.fine_lengths@) is None
        &&& self.fine_lengths@.len() < FINE_STEPS
    }

    /// The cuts were tried one after the other, up to the first that is too long, and the fine ones only after that.
    pub open spec fn wf(self) -> bool {
        &&& is_perimeter(self.segments.0, self.segment_lengths.0)
        &&& is_perimeter(self.segments.1, self.segment_lengths.1)
        &&& self.lengths@.len() <= COARSE_STEPS + 1
        &&& self.fine_lengths@.len() <= FINE_STEPS
        &&& only_last_too_long(self.bevel_length, self.lengths@)
        &&& only_last_too_long(self.bevel_length, self.fine_lengths@)
        &&& self.fine_lengths@.len() > 0 ==> self.too_long() is Some
    }

    /// The shares of the two segments' lengths whose parameters the next cut is tried at.
    pub open spec fn spec_sought(self) -> Option<(DVec2, DVec2)> {
        let lengths = self.segment_lengths;
        if self.is_coarse() {
            Some(coarse_places(coarse_distance(self.max_split(), self.lengths@.len() as u64), lengths.0, lengths.1))
        } else if self.is_fine() {
            let step = self.too_long()->0 as u64;
            let fine_step = (self.fine_lengths@.len() + 1) as u64;
            Some(fine_places(fine_distance(self.max_split(), step, fine_step), lengths.0, lengths.1))
        } else {
            None
        }
    }

    /// How many more cuts may be tried at most.
    pub open spec fn tries_left(self) -> int {
        COARSE_STEPS + 1 + FINE_STEPS - self.lengths@.len() - self.fine_lengths@.len()
    }

    /// Before the first cut is tried. The lengths of the segments are measured here.
    pub fn begin(first: PathSegment, second: PathSegment, bevel_length: DVec2) -> (search: CutSearch)
        ensures
            search.wf(),
            search.segments == (first, second),
            search.bevel_length == bevel_length,
            search.lengths@ == Seq::<DVec2>::empty(),
            search.fine_lengths@ == Seq::<DVec2>::empty(),
    {
        let segment_lengths: (DVec2, DVec2) = (perimeter(first), perimeter(second));
        CutSearch { segments: (first, second), segment_lengths, bevel_length, lengths: Vec::new(), fine_lengths: Vec::new() }
    }

    /// The shares of the two segments' lengths whose parameters the next cut is tried at. `None` if no more cuts are to
    /// be tried.
    pub fn sought(&self) -> (shares: Option<(DVec2, DVec2)>)
        requires
            self.wf(),
        ensures
            shares == self.spec_sought(),
    {
        let max_split: DVec2 = lower(self.segment_lengths.0, self.segment_lengths.1);
        match find_too_long(self.bevel_length, &self.lengths) {
            None => {
                if self.lengths.len() as u64 <= COARSE_STEPS {
                    let tried: DVec2 = coarse_sample(max_split, self.lengths.len() as u64);
                    Some(places_of(tried, self.segment_lengths.0, self.segment_lengths.1))
                } else {
                    None
                }
            },
            Some(step) => {
                let more: bool = find_too_long(self.bevel_length, &self.fine_lengths).is_none();
                if step > 0 && more && (self.fine_lengths.len() as u64) < FINE_STEPS {
                    let tried: DVec2 = fine_sample(max_split, step as u64, self.fine_lengths.len() as u64 + 1);
                    Some(fine_places_of(tried, self.segment_lengths.0, self.segment_lengths.1))
                } else {
                    None
                }
            },
        }
    }

    /// Tries the next cut, between the points at the parameters that were sought.
    pub fn try_cut(&mut self, parameters: (DVec2, DVec2))
        requires
            old(self).wf(),
            old(self).spec_sought() is Some,
        ensures
            final(self).wf(),
            final(self).segments == old(self).segments,
            final(self).segment_lengths == old(self).segment_lengths,
            final(self).bevel_length == old(self).bevel_length,
            final(self).tries_left() == old(self).tries_left() - 1,
            old(self).is_coarse() ==> {
                &&& final(self).lengths@ == old(self).lengths@.push(length_of_cut(old(self).segments, parameters))
                &&& final(self).fine_lengths@ == old(self).fine_lengths@
            },
            old(self).is_fine() ==> {
                &&& final(self).lengths@ == old(self).lengths@
                &&& final(self).fine_lengths@ == old(self).fine_lengths@.push(length_of_cut(old(self).segments, parameters))
            },
    {
        let a: Point = self.segments.0.eval(parameters.0);
        let b: Point = self.segments.1.eval(parameters.1);
        let length: DVec2 = distance(a, b);
        if find_too_long(self.bevel_length, &self.lengths).is_none() {
            proof {
                lemma_one_more(self.bevel_length, self.lengths@, length);
            }
            self.lengths.push(length);
        } else {
            proof {
                lemma_one_more(self.bevel_length, self.fine_lengths@, length);
            }
            self.fine_lengths.push(length);
        }
    }

    /// How far the corner is cut along each of its segments, after the cuts that were tried.
    pub fn split(&self) -> (distance: DVec2)
        requires
            self.wf(),
        ensures
            distance == split_of(self.bevel_length, self.max_split(), self.lengths@, self.fine_lengths@),
    {
        let max_split: DVec2 = lower(self.segment_lengths.0, self.segment_lengths.1);
        calculate_distance_to_split(self.bevel_length, max_split, &self.lengths, &self.fine_lengths)
    }
}

/// How it is found out how far a corner is cut.
#[derive(Debug)]
pub enum CutTask {
    /// At once, for two straight segments.
    Found(DVec2),
    /// By trying cuts.
    Search(CutSearch),
}

/// Whether a task is the one for a corner: the distance itself if both segments are straight, and otherwise a search
/// that no cut has been tried in.
pub open spec fn is_task_for(segments: (PathSegment, PathSegment), linear: (bool, bool), bevel_length: DVec2, task: CutTask) -> bool {
    match task {
        CutTask::Found(split) => linear.0 && linear.1 && exists|half_sine: DVec2|
            #[trigger] is_corner_half_sine(segments.0, segments.1, half_sine) && split == straight_distance(bevel_length, half_sine),
        CutTask::Search(search) => {
            &&& !(linear.0 && linear.1)
            &&& search.wf()
            &&& search.segments == segments
            &&& search.bevel_length == bevel_length
            &&& search.lengths@ == Seq::<DVec2>::empty()
            &&& search.fine_lengths@ == Seq::<DVec2>::empty()
        },
    }
}

/// Begins to find out how far a corner is cut, given whether its two segments are straight.
pub fn begin_cut(segments: (PathSegment, PathSegment), linear: (bool, bool), bevel_length: DVec2) -> (task: CutTask)
    ensures
        is_task_for(segments, linear, bevel_length, task),
{
    if linear.0 && linear.1 {
        CutTask::Found(straight_cut(segments.0, segments.1, bevel_length))
    } else {
        CutTask::Search(CutSearch::begin(segments.0, segments.1, bevel_length))
    }
}

/// A search comes to an end: while a cut is to be tried there are tries left, of which each cut takes one.
pub proof fn a_search_comes_to_an_end(search: CutSearch)
    requires
        search.wf(),
    ensures
        0 <= search.tries_left() <= COARSE_STEPS + 1 + FINE_STEPS,
        search.spec_sought() is Some ==> search.tries_left() > 0,
{
}

/// One more cut, after cuts none of which is too long, leaves only the last to be too long.
proof fn lemma_one_more(bevel_length: DVec2, lengths: Seq<DVec2>, length: DVec2)
    requires
        first_too_long(bevel_length, lengths) is None,
    ensures
        only_last_too_long(bevel_length, lengths.push(length)),
{
    assert(lengths.push(length).drop_last() == lengths);
}

} // verus!
