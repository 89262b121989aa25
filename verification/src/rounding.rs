//! Rounding the corners of a path.
use glam::{DAffine2, DVec2};
use vstd::prelude::*;

use crate::geometry::{
    absolute, absolute_of, angle, angles_between, difference, directions_of, divide, from_angle, half_turn, inverse, inverse_of, is_less, length, length_of, less, lower,
    lower_of, minus, normalize_or_axis, pi, plus, product, quotient, radians, radians_of, reciprocal, reciprocal_of, splat, splat_of, sum, times, unit_or_axis,
    units_of, upper, upper_of, y, y_of,
};
use crate::ids::PointId;
use crate::measures::{is_above, is_below};
use crate::subpath::{ManipulatorGroup, Subpath, SubpathView};

verus! {

/// How corners are rounded. Each number is given in both coordinates.
#[derive(Clone, Copy, Debug)]
pub struct Rounding {
    pub radius: DVec2,
    /// From zero to one.
    pub roundness: DVec2,
    /// How much of an edge a rounded corner may take, in percent of half of it.
    pub edge_length_limit: DVec2,
    /// The angle, in degrees, by which a path has to turn at a corner for it to be rounded.
    pub min_angle_threshold: DVec2,
}

/// What is measured at a corner. Each number is given in both coordinates.
#[derive(Clone, Copy, Debug)]
pub struct CornerMeasure {
    /// The angle by which the path turns.
    pub turn: DVec2,
    /// The sine of half the angle between the edges.
    pub half_sine: DVec2,
}

/// The angle between the edges at a corner.
pub open spec fn corner_angle(measure: CornerMeasure) -> DVec2 {
    difference(pi(), absolute_of(measure.turn))
}

/// Whether the path turns so little that the corner stays as it is.
pub open spec fn is_nearly_straight(measure: CornerMeasure, rounding: Rounding) -> bool {
    is_less(difference(pi(), radians_of(rounding.min_angle_threshold)), corner_angle(measure))
}

/// How far from the corner the rounding begins.
pub open spec fn edge_distance(previous: DVec2, corner: DVec2, next: DVec2, measure: CornerMeasure, rounding: Rounding) -> DVec2 {
    let limit = product(
        product(rounding.edge_length_limit, reciprocal_of(200)),
        lower_of(length_of(difference(corner, previous)), length_of(difference(next, corner))),
    );
    upper_of(lower_of(quotient(rounding.radius, measure.half_sine), limit), reciprocal_of(100))
}

/// Whether each coordinate of a vector is at most that of one of two others, as far as those are numbers.
pub open spec fn is_below_either(a: DVec2, b: DVec2, c: DVec2) -> bool {
    &&& (units_of(b).0 matches Some(y) && units_of(c).0 matches Some(z)) ==> (units_of(a).0 matches Some(x) && (x <= units_of(b).0->0 || x
        <= units_of(c).0->0))
    &&& (units_of(b).1 matches Some(y) && units_of(c).1 matches Some(z)) ==> (units_of(a).1 matches Some(x) && (x <= units_of(b).1->0 || x
        <= units_of(c).1->0))
}

/// The two anchors that take the place of a corner.
pub open spec fn rounded_corner(path: SubpathView, i: int, measure: CornerMeasure, rounding: Rounding, id: PointId) -> Seq<ManipulatorGroup> {
    let previous = path.groups[path.previous(i)].anchor;
    let corner = path.groups[i].anchor;
    let next = path.groups[path.next(i)].anchor;
    let into = unit_or_axis(difference(corner, previous));
    let out = unit_or_axis(difference(next, corner));
    let distance = edge_distance(previous, corner, next, measure, rounding);
    let sharpness = difference(splat_of(1), rounding.roundness);
    seq![
        ManipulatorGroup {
            anchor: difference(corner, product(into, distance)),
            in_handle: None,
            out_handle: Some(difference(corner, product(product(into, distance), sharpness))),
            id: id.successor(),
        },
        ManipulatorGroup {
            anchor: sum(corner, product(out, distance)),
            in_handle: Some(sum(corner, product(product(out, distance), sharpness))),
            out_handle: None,
            id: id.successor().successor(),
        },
    ]
}

/// Whether the anchor stays as it is: it is an end of the path, or the path is nearly straight there.
pub open spec fn stays(path: SubpathView, i: int, measure: CornerMeasure, rounding: Rounding) -> bool {
    path.is_end(i) || is_nearly_straight(measure, rounding)
}

/// The first `n` anchors of a path, with the corners among them rounded, and the last identifier that
/// was given to a new anchor.
pub open spec fn round_anchors(path: SubpathView, measures: Seq<CornerMeasure>, rounding: Rounding, id: PointId, n: nat) -> (Seq<ManipulatorGroup>, PointId)
    decreases n,
{
    if n == 0 {
        (Seq::empty(), id)
    } else {
        let i = n - 1;
        let (before, last) = round_anchors(path, measures, rounding, id, i as nat);
        if stays(path, i, measures[i], rounding) {
            (before.push(path.groups[i]), last)
        } else {
            (before + rounded_corner(path, i, measures[i], rounding, last), last.successor().successor())
        }
    }
}

/// The path with its corners rounded, in the space of the shape, and the last identifier that was
/// given to a new anchor. A path of fewer than three anchors is only placed.
pub open spec fn round_path(path: SubpathView, transform: DAffine2, measures: Seq<CornerMeasure>, rounding: Rounding, id: PointId) -> (SubpathView, PointId) {
    if path.groups.len() < 3 {
        (path.placed(transform), id)
    } else {
        let (groups, last) = round_anchors(path.placed(transform), measures, rounding, id, path.groups.len());
        (SubpathView { groups, closed: path.closed }.placed(inverse_of(transform)), last)
    }
}

/// How many of the first `n` anchors are rounded.
pub open spec fn rounded_count(path: SubpathView, measures: Seq<CornerMeasure>, rounding: Rounding, n: nat) -> nat
    decreases n,
{
    if n == 0 {
        0
    } else {
        rounded_count(path, measures, rounding, (n - 1) as nat) + if stays(path, n - 1, measures[n - 1], rounding) {
            0nat
        } else {
            1
        }
    }
}

/// Rounding puts two anchors in place of each corner that does not stay, and keeps the others.
pub proof fn rounding_adds_an_anchor_per_corner(path: SubpathView, measures: Seq<CornerMeasure>, rounding: Rounding, id: PointId, n: nat)
    ensures
        round_anchors(path, measures, rounding, id, n).0.len() == n + rounded_count(path, measures, rounding, n),
    decreases n,
{
    if n > 0 {
        rounding_adds_an_anchor_per_corner(path, measures, rounding, id, (n - 1) as nat);
    }
}

/// The two anchors that take the place of a corner.
fn push_rounded_corner(path: &Subpath, i: usize, measure: CornerMeasure, rounding: Rounding, id: &mut PointId, groups: &mut Vec<ManipulatorGroup>)
    requires
        i < path@.groups.len(),
    ensures
        final(groups)@ == old(groups)@ + rounded_corner(path@, i as int, measure, rounding, *old(id)),
        *final(id) == old(id).successor().successor(),
        ({
            let previous = path@.groups[path@.previous(i as int)].anchor;
            let corner = path@.groups[i as int].anchor;
            let next = path@.groups[path@.next(i as int)].anchor;
            let distance = edge_distance(previous, corner, next, measure, rounding);
            let least = reciprocal_of(100);
            &&& is_above(distance, least)
            &&& is_below_either(distance, quotient(rounding.radius, measure.half_sine), least)
            &&& exists|shorter: DVec2|
                {
                    &&& is_below(shorter, length_of(difference(corner, previous)))
                    &&& is_below(shorter, length_of(difference(next, corner)))
                    &&& is_below_either(
                        distance,
                        #[trigger] product(product(rounding.edge_length_limit, reciprocal_of(200)), shorter),
                        least,
                    )
                }
        }),
{
    let previous: DVec2 = path.groups[path.previous(i)].anchor;
    let corner: DVec2 = path.groups[i].anchor;
    let next: DVec2 = path.groups[path.next(i)].anchor;
    let into: DVec2 = normalize_or_axis(minus(corner, previous));
    let out: DVec2 = normalize_or_axis(minus(next, corner));
    let shorter: DVec2 = lower(length(minus(corner, previous)), length(minus(next, corner)));
    assert(is_below(shorter, length_of(difference(corner, previous))) && is_below(shorter, length_of(difference(next, corner))));
    let limit: DVec2 = times(times(rounding.edge_length_limit, reciprocal(200)), shorter);
    let distance: DVec2 = upper(lower(divide(rounding.radius, measure.half_sine), limit), reciprocal(100));
    let sharpness: DVec2 = minus(splat(1), rounding.roundness);
    let first: PointId = id.successor();
    let second: PointId = first.successor();
    groups.push(
        ManipulatorGroup {
            anchor: minus(corner, times(into, distance)),
            in_handle: None,
            out_handle: Some(minus(corner, times(times(into, distance), sharpness))),
            id: first,
        },
    );
    groups.push(
        ManipulatorGroup {
            anchor: plus(corner, times(out, distance)),
            in_handle: Some(plus(corner, times(times(out, distance), sharpness))),
            out_handle: None,
            id: second,
        },
    );
    *id = second;
    proof {
        assert(groups@ == old(groups)@ + rounded_corner(path@, i as int, measure, rounding, *old(id)));
    }
}

/// Rounds the corners of a path, given what is measured at each of its anchors. The new anchors are
/// named by the identifiers after `id`, which becomes the last one given.
pub fn round_corners_by_measures(path: &Subpath, transform: DAffine2, measures: &Vec<CornerMeasure>, rounding: Rounding, id: &mut PointId) -> (result: Subpath)
    requires
        measures@.len() == path@.groups.len(),
    ensures
        (result@, *final(id)) == round_path(path@, transform, measures@, rounding, *old(id)),
{
    let placed: Subpath = path.apply_transform(transform);
    let count: usize = placed.groups.len();
    if count < 3 {
        return placed;
    }
    let mut groups: Vec<ManipulatorGroup> = Vec::new();
    let mut i: usize = 0;
    while i < count
        invariant
            i <= count,
            count == placed@.groups.len(),
            measures@.len() == count,
            (groups@, *id) == round_anchors(placed@, measures@, rounding, *old(id), i as nat),
        decreases count - i,
    {
        let measure: CornerMeasure = measures[i];
        let straight: bool = less(
            minus(half_turn(), radians(rounding.min_angle_threshold)),
            minus(half_turn(), absolute(measure.turn)),
        );
        if placed.is_end(i) || straight {
            groups.push(placed.groups[i]);
        } else {
            push_rounded_corner(&placed, i, measure, rounding, id, &mut groups);
        }
        i += 1;
    }
    let rounded: Subpath = Subpath { groups, closed: placed.closed };
    rounded.apply_transform(inverse(transform))
}

/// Whether a turn is one from the direction of the edge into an anchor to that of the edge out of it.
pub open spec fn is_turn_at(path: SubpathView, i: int, turn: DVec2) -> bool {
    let corner = path.groups[i].anchor;
    angles_between(
        unit_or_axis(difference(corner, path.groups[path.previous(i)].anchor)),
        unit_or_axis(difference(path.groups[path.next(i)].anchor, corner)),
    ).contains(turn)
}

/// Whether a number is the sine of half the angle that a turn leaves between the edges.
pub open spec fn is_half_sine(turn: DVec2, half_sine: DVec2) -> bool {
    exists|direction: DVec2|
        #[trigger] directions_of(quotient(difference(pi(), absolute_of(turn)), splat_of(2))).contains(direction) && half_sine == y_of(
            direction,
        )
}

/// Whether an anchor is measured by the edges that meet there.
pub open spec fn is_measure_of(path: SubpathView, i: int, measure: CornerMeasure) -> bool {
    is_turn_at(path, i, measure.turn) && is_half_sine(measure.turn, measure.half_sine)
}

/// Whether each anchor of a path is measured by the edges that meet there.
pub open spec fn are_measures_of(path: SubpathView, measures: Seq<CornerMeasure>) -> bool {
    &&& measures.len() == path.groups.len()
    &&& forall|i: int| 0 <= i < measures.len() ==> is_measure_of(path, i, #[trigger] measures[i])
}

/// Measures the anchors of a path.
fn measure_corners(path: &Subpath) -> (measures: Vec<CornerMeasure>)
    ensures
        are_measures_of(path@, measures@),
{
    let mut measures: Vec<CornerMeasure> = Vec::new();
    let mut i: usize = 0;
    while i < path.groups.len()
        invariant
            i <= path.groups.len(),
            measures@.len() == i,
            forall|k: int| 0 <= k < i ==> is_measure_of(path@, k, #[trigger] measures@[k]),
        decreases path.groups.len() - i,
    {
        let previous: DVec2 = path.groups[path.previous(i)].anchor;
        let corner: DVec2 = path.groups[i].anchor;
        let next: DVec2 = path.groups[path.next(i)].anchor;
        let into: DVec2 = normalize_or_axis(minus(corner, previous));
        let out: DVec2 = normalize_or_axis(minus(next, corner));
        let turn: DVec2 = angle(into, out);
        let half: DVec2 = divide(minus(half_turn(), absolute(turn)), splat(2));
        let direction: DVec2 = from_angle(half);
        let measure: CornerMeasure = CornerMeasure { turn, half_sine: y(direction) };
        proof {
            assert(directions_of(quotient(difference(pi(), absolute_of(turn)), splat_of(2))).contains(direction));
            assert(is_measure_of(path@, i as int, measure));
        }
        measures.push(measure);
        i += 1;
    }
    measures
}

/// Rounds the corners of a path.
///
/// The angles of the placed path are measured here; what follows from them is what [`round_corners_by_measures`] does.
pub fn round_corners(path: &Subpath, transform: DAffine2, rounding: Rounding, id: &mut PointId) -> (result: Subpath)
    ensures
        exists|measures: Seq<CornerMeasure>|
            {
                &&& #[trigger] are_measures_of(path@.placed(transform), measures)
                &&& (result@, *final(id)) == round_path(path@, transform, measures, rounding, *old(id))
            },
{
    let placed: Subpath = path.apply_transform(transform);
    let measures: Vec<CornerMeasure> = measure_corners(&placed);
    round_corners_by_measures(path, transform, &measures, rounding, id)
}

} // verus!
