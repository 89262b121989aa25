//! Copies of artwork, placed by transforms.
use glam::{DAffine2, DVec2};
use rand::rngs::StdRng;
use vstd::prelude::*;

use crate::geometry::{
    absolute, absolute_of, compose, composition, difference, divide, from_angle, from_columns, from_translation, full_turn, is_less, columns_of, directions_of, less,
    linear_part, linear_part_of, minus, mixed, mixed_of, negate, negation, number, number_of, offset, offset_in, placement, placement_of, plus,
    product, quotient, radians, radians_of, reciprocal, reciprocal_of, rotation, rotation_of, splat, splat_of, sum, tau, times, transform_point,
    transformed_point, translation_of, vector, vector_of, x, x_of, y, y_of, zero,
};
use crate::randomness::{are_drawn_for, draws_from, is_fraction, lemma_draw, random_fraction, seeded};

verus! {

/// A copy of one of the rows of artwork, with the transform that places it.
#[derive(Clone, Copy, Debug)]
pub struct Placed {
    pub row: usize,
    pub transform: DAffine2,
}

/// A row placed by a transform that leaves the row's own translation in front and its matrix behind.
pub open spec fn around_itself(row: DAffine2, transform: DAffine2) -> DAffine2 {
    composition(composition(translation_of(offset_in(row)), transform), linear_part_of(row))
}

/// The rows, each placed by the transform around itself.
pub open spec fn placed_around(rows: Seq<DAffine2>, transform: DAffine2) -> Seq<Placed> {
    Seq::new(rows.len(), |i: int| Placed { row: i as usize, transform: around_itself(rows[i], transform) })
}

/// The rows, each placed by the transform in front of its own.
pub open spec fn placed_before(rows: Seq<DAffine2>, transform: DAffine2) -> Seq<Placed> {
    Seq::new(rows.len(), |i: int| Placed { row: i as usize, transform: composition(transform, rows[i]) })
}

/// The copies that the first transforms make, each of all rows around themselves.
pub open spec fn copies_around(rows: Seq<DAffine2>, transforms: Seq<DAffine2>, n: nat) -> Seq<Placed>
    decreases n,
{
    if n == 0 {
        Seq::empty()
    } else {
        copies_around(rows, transforms, (n - 1) as nat) + placed_around(rows, transforms[n - 1])
    }
}

/// The copies that the first transforms make, each of all rows.
pub open spec fn copies_before(rows: Seq<DAffine2>, transforms: Seq<DAffine2>, n: nat) -> Seq<Placed>
    decreases n,
{
    if n == 0 {
        Seq::empty()
    } else {
        copies_before(rows, transforms, (n - 1) as nat) + placed_before(rows, transforms[n - 1])
    }
}

/// Adds the rows, each placed by the transform around itself.
fn append_around(rows: &Vec<DAffine2>, transform: DAffine2, result: &mut Vec<Placed>)
    ensures
        final(result)@ == old(result)@ + placed_around(rows@, transform),
{
    let ghost done = result@;
    let mut i: usize = 0;
    while i < rows.len()
        invariant
            i <= rows.len(),
            result@ == done + placed_around(rows@, transform).take(i as int),
        decreases rows.len() - i,
    {
        let row: DAffine2 = rows[i];
        let placed: DAffine2 = compose(compose(from_translation(offset(row)), transform), linear_part(row));
        result.push(Placed { row: i, transform: placed });
        i += 1;
        proof {
            let all = placed_around(rows@, transform);
            assert(all.take(i as int) == all.take(i - 1).push(all[i - 1]));
        }
    }
    proof {
        assert(placed_around(rows@, transform).take(i as int) == placed_around(rows@, transform));
    }
}

/// Adds the rows, each placed by the transform in front of its own.
fn append_before(rows: &Vec<DAffine2>, transform: DAffine2, result: &mut Vec<Placed>)
    ensures
        final(result)@ == old(result)@ + placed_before(rows@, transform),
{
    let ghost done = result@;
    let mut i: usize = 0;
    while i < rows.len()
        invariant
            i <= rows.len(),
            result@ == done + placed_before(rows@, transform).take(i as int),
        decreases rows.len() - i,
    {
        result.push(Placed { row: i, transform: compose(transform, rows[i]) });
        i += 1;
        proof {
            let all = placed_before(rows@, transform);
            assert(all.take(i as int) == all.take(i - 1).push(all[i - 1]));
        }
    }
    proof {
        assert(placed_before(rows@, transform).take(i as int) == placed_before(rows@, transform));
    }
}

/// How many copies are made: at least one.
pub open spec fn copy_count(instances: u32) -> nat {
    if instances == 0 {
        1
    } else {
        instances as nat
    }
}

fn at_least_one(instances: u32) -> (count: u32)
    ensures
        count == copy_count(instances),
{
    if instances == 0 {
        1
    } else {
        instances
    }
}

/// How far around one of the copies of a repetition is turned, of an angle in degrees.
pub open spec fn repeat_angle(angle: DVec2, count: nat, index: int) -> DVec2 {
    quotient(product(number_of(index as u64), radians_of(angle)), number_of((count - 1) as u64))
}

/// The angles by which the copies of a repetition are turned.
pub open spec fn all_repeat_angles(angle: DVec2, instances: u32) -> Seq<DVec2> {
    Seq::new(copy_count(instances), |i: int| repeat_angle(angle, copy_count(instances), i))
}

/// The angles by which the copies of a repetition are turned, in radians: the share of the whole angle
/// that the copy's place among the steps is.
pub fn repeat_angles(angle: DVec2, instances: u32) -> (angles: Vec<DVec2>)
    ensures
        angles@ == all_repeat_angles(angle, instances),
{
    let count: u32 = at_least_one(instances);
    let turned: DVec2 = radians(angle);
    let total: DVec2 = number((count - 1) as u64);
    let mut angles: Vec<DVec2> = Vec::new();
    let mut i: u32 = 0;
    while i < count
        invariant
            i <= count,
            count == copy_count(instances),
            turned == radians_of(angle),
            total == number_of((count - 1) as u64),
            angles@ == Seq::new(i as nat, |k: int| repeat_angle(angle, count as nat, k)),
        decreases count - i,
    {
        angles.push(divide(times(number(i as u64), turned), total));
        i += 1;
        proof {
            assert(angles@ == Seq::new(i as nat, |k: int| repeat_angle(angle, count as nat, k)));
        }
    }
    angles
}

/// The transform of one of the copies of a repetition: it moves by a share of the direction, then turns.
pub open spec fn repeat_transform(direction: DVec2, turn: DVec2, count: nat, index: int) -> DAffine2 {
    composition(
        rotation_of(turn),
        translation_of(quotient(product(number_of(index as u64), direction), number_of((count - 1) as u64))),
    )
}

/// The transforms of the copies of a repetition.
pub open spec fn repeat_transforms(direction: DVec2, turns: Seq<DVec2>) -> Seq<DAffine2> {
    Seq::new(turns.len(), |i: int| repeat_transform(direction, turns[i], turns.len(), i))
}

/// The copies that a repetition makes, for the directions that the first axis is turned into.
pub fn repeat_by_turns(rows: &Vec<DAffine2>, direction: DVec2, turns: &Vec<DVec2>) -> (result: Vec<Placed>)
    requires
        0 < turns@.len() <= u32::MAX,
    ensures
        result@ == copies_around(rows@, repeat_transforms(direction, turns@), turns@.len()),
{
    let ghost transforms = repeat_transforms(direction, turns@);
    let total: DVec2 = number((turns.len() - 1) as u64);
    let mut result: Vec<Placed> = Vec::new();
    let mut i: usize = 0;
    while i < turns.len()
        invariant
            i <= turns.len() <= u32::MAX,
            0 < turns@.len(),
            total == number_of((turns@.len() - 1) as u64),
            transforms == repeat_transforms(direction, turns@),
            result@ == copies_around(rows@, transforms, i as nat),
        decreases turns.len() - i,
    {
        let translation: DVec2 = divide(times(number(i as u64), direction), total);
        let transform: DAffine2 = compose(rotation(turns[i]), from_translation(translation));
        append_around(rows, transform, &mut result);
        i += 1;
    }
    result
}

/// Whether vectors are directions of angles, one for each in their order.
pub open spec fn are_turns_of(angles: Seq<DVec2>, turns: Seq<DVec2>) -> bool {
    &&& turns.len() == angles.len()
    &&& forall|i: int| 0 <= i < angles.len() ==> directions_of(angles[i]).contains(#[trigger] turns[i])
}

/// The directions of angles.
fn turns_of(angles: &Vec<DVec2>) -> (turns: Vec<DVec2>)
    ensures
        are_turns_of(angles@, turns@),
{
    let mut turns: Vec<DVec2> = Vec::new();
    let mut i: usize = 0;
    while i < angles.len()
        invariant
            i <= angles.len(),
            turns@.len() == i,
            forall|k: int| 0 <= k < i ==> directions_of(angles@[k]).contains(#[trigger] turns@[k]),
        decreases angles.len() - i,
    {
        turns.push(from_angle(angles[i]));
        i += 1;
    }
    turns
}

/// Repeats artwork along a direction, turning it by an angle in degrees from the first copy to the last.
///
/// The sines and cosines of the angles, which are those of [`repeat_angles`], are computed here; what
/// follows from them is what [`repeat_by_turns`] does.
pub fn repeat(rows: &Vec<DAffine2>, direction: DVec2, angle: DVec2, instances: u32) -> (result: Vec<Placed>)
    ensures
        exists|turns: Seq<DVec2>|
            {
                &&& #[trigger] are_turns_of(all_repeat_angles(angle, instances), turns)
                &&& result@ == copies_around(rows@, repeat_transforms(direction, turns), turns.len())
            },
{
    let angles: Vec<DVec2> = repeat_angles(angle, instances);
    let turns: Vec<DVec2> = turns_of(&angles);
    repeat_by_turns(rows, direction, &turns)
}

/// How far around the circle one of the copies is, in radians.
pub open spec fn circular_angle(angle_offset: DVec2, count: nat, index: int) -> DVec2 {
    sum(product(quotient(tau(), number_of(count as u64)), number_of(index as u64)), radians_of(angle_offset))
}

/// The angles at which the copies around a circle are.
pub open spec fn all_circular_angles(angle_offset: DVec2, instances: u32) -> Seq<DVec2> {
    Seq::new(copy_count(instances), |i: int| circular_angle(angle_offset, copy_count(instances), i))
}

/// The angles at which the copies around a circle are, in radians.
pub fn circular_angles(angle_offset: DVec2, instances: u32) -> (angles: Vec<DVec2>)
    ensures
        angles@ == all_circular_angles(angle_offset, instances),
{
    let count: u32 = at_least_one(instances);
    let start: DVec2 = radians(angle_offset);
    let step: DVec2 = divide(full_turn(), number(count as u64));
    let mut angles: Vec<DVec2> = Vec::new();
    let mut i: u32 = 0;
    while i < count
        invariant
            i <= count,
            count == copy_count(instances),
            start == radians_of(angle_offset),
            step == quotient(tau(), number_of(count as u64)),
            angles@ == Seq::new(i as nat, |k: int| circular_angle(angle_offset, count as nat, k)),
        decreases count - i,
    {
        angles.push(plus(times(step, number(i as u64)), start));
        i += 1;
        proof {
            assert(angles@ == Seq::new(i as nat, |k: int| circular_angle(angle_offset, count as nat, k)));
        }
    }
    angles
}

/// The transform of a copy on the circle: out along the second axis by the radius, then around.
pub open spec fn circular_transforms(radius: DVec2, turns: Seq<DVec2>) -> Seq<DAffine2> {
    Seq::new(
        turns.len(),
        |i: int| composition(rotation_of(turns[i]), translation_of(product(radius, vector_of(0, 1)))),
    )
}

/// The copies around a circle, for the directions that the first axis is turned into.
pub fn circular_repeat_by_turns(rows: &Vec<DAffine2>, radius: DVec2, turns: &Vec<DVec2>) -> (result: Vec<Placed>)
    ensures
        result@ == copies_around(rows@, circular_transforms(radius, turns@), turns@.len()),
{
    let ghost transforms = circular_transforms(radius, turns@);
    let outward: DAffine2 = from_translation(times(radius, vector(0, 1)));
    let mut result: Vec<Placed> = Vec::new();
    let mut i: usize = 0;
    while i < turns.len()
        invariant
            i <= turns.len(),
            outward == translation_of(product(radius, vector_of(0, 1))),
            transforms == circular_transforms(radius, turns@),
            result@ == copies_around(rows@, transforms, i as nat),
        decreases turns.len() - i,
    {
        append_around(rows, compose(rotation(turns[i]), outward), &mut result);
        i += 1;
    }
    result
}

/// Repeats artwork evenly around a circle of the radius, from an angle in degrees on.
///
/// The sines and cosines of the angles, which are those of [`circular_angles`], are computed here; what
/// follows from them is what [`circular_repeat_by_turns`] does.
pub fn circular_repeat(rows: &Vec<DAffine2>, angle_offset: DVec2, radius: DVec2, instances: u32) -> (result: Vec<Placed>)
    ensures
        exists|turns: Seq<DVec2>|
            {
                &&& #[trigger] are_turns_of(all_circular_angles(angle_offset, instances), turns)
                &&& result@ == copies_around(rows@, circular_transforms(radius, turns), turns.len())
            },
{
    let angles: Vec<DVec2> = circular_angles(angle_offset, instances);
    let turns: Vec<DVec2> = turns_of(&angles);
    circular_repeat_by_turns(rows, radius, &turns)
}

/// A repetition holds every row once for each copy, in the order of the rows within a copy.
pub proof fn each_copy_holds_every_row(rows: Seq<DAffine2>, transforms: Seq<DAffine2>, n: nat, copy: int, row: int)
    requires
        n <= transforms.len(),
        0 <= copy < n,
        0 <= row < rows.len() <= usize::MAX,
    ensures
        copies_around(rows, transforms, n).len() == n * rows.len(),
        0 <= copy * rows.len() + row < n * rows.len(),
        copies_around(rows, transforms, n)[copy * rows.len() + row] == (Placed {
            row: row as usize,
            transform: around_itself(rows[row], transforms[copy]),
        }),
    decreases n,
{
    let len = rows.len() as int;
    lemma_copies_len(rows, transforms, n);
    lemma_copies_len(rows, transforms, (n - 1) as nat);
    assert(0 <= copy * len + row < n * len) by (nonlinear_arith)
        requires
            0 <= copy < n,
            0 <= row < len,
    ;
    assert(n * len == (n - 1) * len + len) by (nonlinear_arith);
    if copy < n - 1 {
        each_copy_holds_every_row(rows, transforms, (n - 1) as nat, copy, row);
    }
}

proof fn lemma_copies_len(rows: Seq<DAffine2>, transforms: Seq<DAffine2>, n: nat)
    ensures
        copies_around(rows, transforms, n).len() == n * rows.len(),
    decreases n,
{
    let len = rows.len() as int;
    if n == 0 {
        assert(0 * len == 0);
    } else {
        lemma_copies_len(rows, transforms, (n - 1) as nat);
        assert(n * len == (n - 1) * len + len) by (nonlinear_arith);
    }
}

/// How the copies at points are scaled and turned at random.
#[derive(Clone, Copy, Debug)]
pub struct RandomPlacement {
    pub scale_min: DVec2,
    pub scale_max: DVec2,
    /// Zero for a uniform distribution of the sizes, below it for more small ones and above it for more
    /// large ones.
    pub scale_bias: DVec2,
    /// The range of the angles in degrees.
    pub rotation: DVec2,
}

/// Whether a number is far enough from zero to matter.
pub open spec fn is_considerable(a: DVec2) -> bool {
    is_less(reciprocal_of(1_000_000), absolute_of(a))
}

impl RandomPlacement {
    /// By how much the sizes differ.
    pub open spec fn scale_range(self) -> DVec2 {
        difference(self.scale_max, self.scale_min)
    }

    /// Whether the sizes are drawn.
    pub open spec fn draws_scale(self) -> bool {
        is_considerable(self.scale_range())
    }

    /// Whether the angles are drawn.
    pub open spec fn draws_rotation(self) -> bool {
        is_considerable(self.rotation)
    }

    /// The size for a place between the smallest and the largest.
    pub open spec fn spec_scale(self, place: Option<DVec2>) -> DVec2 {
        match place {
            Some(place) => sum(self.scale_min, product(place, self.scale_range())),
            None => self.scale_min,
        }
    }

    /// The angle in radians for a drawn share of the range, which is centered about zero.
    pub open spec fn spec_angle(self, share: Option<DVec2>) -> DVec2 {
        match share {
            Some(share) => product(
                quotient(product(difference(share, reciprocal_of(2)), self.rotation), splat_of(360)),
                tau(),
            ),
            None => zero(),
        }
    }

    /// The size for a place between the smallest and the largest, or the smallest without one.
    pub fn scale(self, place: Option<DVec2>) -> (scale: DVec2)
        ensures
            scale == self.spec_scale(place),
    {
        match place {
            Some(place) => plus(self.scale_min, times(place, minus(self.scale_max, self.scale_min))),
            None => self.scale_min,
        }
    }

    /// The angle in radians for a drawn share of the range, or none without one.
    pub fn angle(self, share: Option<DVec2>) -> (angle: DVec2)
        ensures
            angle == self.spec_angle(share),
    {
        match share {
            Some(share) => times(divide(times(minus(share, reciprocal(2)), self.rotation), splat(360)), full_turn()),
            None => splat(0),
        }
    }

    /// Whether sizes are weighted by the bias.
    pub open spec fn weights(self) -> bool {
        !is_less(absolute_of(self.scale_bias), reciprocal_of(1_000_000))
    }

    /// The place of a size between the smallest and the largest, for a drawn number: the number itself, or
    /// weighted by the bias.
    fn place(self, number: DVec2) -> (place: DVec2)
        ensures
            is_place_for(self, number, place),
    {
        if less(absolute(self.scale_bias), reciprocal(1_000_000)) {
            number
        } else {
            weighted(number, self.scale_bias)
        }
    }
}

/// Whether a place is that of the size for a drawn number.
pub open spec fn is_place_for(placing: RandomPlacement, number: DVec2, place: DVec2) -> bool {
    if placing.weights() {
        is_weight_for(number, placing.scale_bias, place)
    } else {
        place == number
    }
}

/// All that `DVec2::powf` may give for a vector and the number in the first coordinate of the exponent, on one
/// platform or another.
pub uninterp spec fn powers_of(base: DVec2, exponent: DVec2) -> Set<DVec2>;

/// Calls `DVec2::powf`, to raise two to a number. The result is only said to be one of those that may be given for
/// the two numbers: its last digits differ from one platform to another.
#[verifier::external_body]
fn power_of_two(two: DVec2, exponent: DVec2) -> (power: DVec2)
    ensures
        powers_of(two, exponent).contains(power),
{
    two.powf(exponent.x)
}

/// All that `f64::log2` may give for the number in the first coordinate of a vector, in both coordinates, on one
/// platform or another.
pub uninterp spec fn binary_logarithms_of(a: DVec2) -> Set<DVec2>;

/// Calls the `log2` of a number. The result is only said to be one of those that may be given for the number: its
/// last digits differ from one platform to another.
#[verifier::external_body]
fn binary_logarithm(a: DVec2) -> (logarithm: DVec2)
    ensures
        binary_logarithms_of(a).contains(logarithm),
{
    DVec2::splat(a.x.log2())
}

/// What a share leaves of one when it is scaled by what a power leaves of one.
pub open spec fn left_by(share: DVec2, power: DVec2) -> DVec2 {
    difference(splat_of(1), product(share, difference(splat_of(1), power)))
}

/// Whether the power and the logarithm are those that a share is weighted by: two to the bias, and the logarithm
/// of what the share leaves with that power.
pub open spec fn weigh(share: DVec2, bias: DVec2, power: DVec2, logarithm: DVec2) -> bool {
    &&& powers_of(splat_of(2), bias).contains(power)
    &&& binary_logarithms_of(left_by(share, power)).contains(logarithm)
}

/// Whether a number is a share weighted by a bias: the logarithm of what the share leaves of one, with the power
/// of the bias, divided by the bias.
pub open spec fn is_weight_for(share: DVec2, bias: DVec2, weight: DVec2) -> bool {
    exists|power: DVec2, logarithm: DVec2| #[trigger] weigh(share, bias, power, logarithm) && weight == quotient(logarithm, bias)
}

/// A share weighted by a bias.
fn weighted(share: DVec2, bias: DVec2) -> (weight: DVec2)
    ensures
        is_weight_for(share, bias, weight),
{
    let power: DVec2 = power_of_two(splat(2), bias);
    let logarithm: DVec2 = binary_logarithm(minus(splat(1), times(share, minus(splat(1), power))));
    proof {
        assert(weigh(share, bias, power, logarithm));
    }
    divide(logarithm, bias)
}

/// Points to place copies at.
#[derive(Debug)]
pub struct PointsRow {
    pub transform: DAffine2,
    pub positions: Vec<DVec2>,
}

/// The size and the direction of a copy at a point.
#[derive(Clone, Copy, Debug)]
pub struct Pose {
    pub scale: DVec2,
    pub direction: DVec2,
}

/// The transforms of the copies at the points of one row.
pub open spec fn row_transforms(points: PointsRow, poses: Seq<Pose>, first: int) -> Seq<DAffine2> {
    Seq::new(
        points.positions@.len(),
        |i: int|
            placement_of(
                poses[first + i].direction,
                poses[first + i].scale,
                transformed_point(points.transform, points.positions@[i]),
            ),
    )
}

/// How many points the first rows hold.
pub open spec fn points_in(points: Seq<PointsRow>, n: nat) -> nat
    decreases n,
{
    if n == 0 {
        0
    } else {
        points_in(points, (n - 1) as nat) + points[n - 1].positions@.len()
    }
}

/// The copies at the points of the first rows.
pub open spec fn copies_at(points: Seq<PointsRow>, rows: Seq<DAffine2>, poses: Seq<Pose>, n: nat) -> Seq<Placed>
    decreases n,
{
    if n == 0 {
        Seq::empty()
    } else {
        let transforms = row_transforms(points[n - 1], poses, points_in(points, (n - 1) as nat) as int);
        copies_at(points, rows, poses, (n - 1) as nat) + copies_before(rows, transforms, transforms.len())
    }
}

/// The first rows hold no more points than all.
proof fn lemma_points_grow(points: Seq<PointsRow>, n: nat, more: nat)
    requires
        n <= more,
    ensures
        points_in(points, n) <= points_in(points, more),
    decreases more,
{
    if n < more {
        lemma_points_grow(points, n, (more - 1) as nat);
    }
}

/// The copies of artwork at points, for the sizes and directions.
pub fn copy_to_points_by_poses(points: &Vec<PointsRow>, rows: &Vec<DAffine2>, poses: &Vec<Pose>) -> (result: Vec<Placed>)
    requires
        poses@.len() == points_in(points@, points@.len()),
    ensures
        result@ == copies_at(points@, rows@, poses@, points@.len()),
{
    let mut result: Vec<Placed> = Vec::new();
    let mut k: usize = 0;
    let mut next: usize = 0;
    while k < points.len()
        invariant
            k <= points.len(),
            poses@.len() == points_in(points@, points@.len()),
            next == points_in(points@, k as nat),
            result@ == copies_at(points@, rows@, poses@, k as nat),
        decreases points.len() - k,
    {
        let row: &PointsRow = &points[k];
        let ghost first = next as int;
        let ghost done = result@;
        let ghost transforms = row_transforms(*row, poses@, first);
        proof {
            lemma_points_grow(points@, (k + 1) as nat, points@.len());
        }
        let mut i: usize = 0;
        while i < row.positions.len()
            invariant
                i <= row.positions.len(),
                next == first + i,
                first + row.positions@.len() <= poses.len(),
                transforms == row_transforms(*row, poses@, first),
                result@ == done + copies_before(rows@, transforms, i as nat),
            decreases row.positions.len() - i,
        {
            let translation: DVec2 = transform_point(row.transform, row.positions[i]);
            let pose: Pose = poses[next];
            append_before(rows, placement(pose.direction, pose.scale, translation), &mut result);
            i += 1;
            next += 1;
            proof {
                assert(result@ == done + copies_before(rows@, transforms, i as nat));
            }
        }
        k += 1;
    }
    result
}

/// The numbers drawn for the sizes and for the angles of the copies at the points of a row, with the generators that
/// they are drawn from.
pub struct RowDraws {
    pub scale_generators: Seq<StdRng>,
    pub scale_numbers: Seq<DVec2>,
    pub rotation_generators: Seq<StdRng>,
    pub rotation_numbers: Seq<DVec2>,
}

/// The number at a place, if numbers are drawn.
pub open spec fn number_at(draws: bool, numbers: Seq<DVec2>, i: int) -> Option<DVec2> {
    if draws {
        Some(numbers[i])
    } else {
        None
    }
}

/// Whether a size is the one for a drawn number, or the smallest without one.
pub open spec fn is_scale_for(placing: RandomPlacement, number: Option<DVec2>, scale: DVec2) -> bool {
    match number {
        Some(n) => exists|place: DVec2| #[trigger] is_place_for(placing, n, place) && scale == placing.spec_scale(Some(place)),
        None => scale == placing.spec_scale(None),
    }
}

/// Whether a copy is scaled and turned by the numbers drawn for it.
pub open spec fn is_pose_for(placing: RandomPlacement, scale_number: Option<DVec2>, rotation_number: Option<DVec2>, pose: Pose) -> bool {
    &&& is_scale_for(placing, scale_number, pose.scale)
    &&& directions_of(placing.spec_angle(rotation_number)).contains(pose.direction)
}

/// How many numbers are drawn for so many copies.
pub open spec fn draw_count(draws: bool, copies: nat) -> nat {
    if draws {
        copies
    } else {
        0
    }
}

/// Whether the copies of a row are scaled and turned by numbers drawn one after the other, from the seeds.
pub open spec fn are_posed_by(placing: RandomPlacement, seeds: (u64, u64), poses: Seq<Pose>, draws: RowDraws) -> bool {
    &&& are_drawn_for(seeds.0, draws.scale_generators, draws.scale_numbers)
    &&& are_drawn_for(seeds.1, draws.rotation_generators, draws.rotation_numbers)
    &&& draws.scale_numbers.len() == draw_count(placing.draws_scale(), poses.len())
    &&& draws.rotation_numbers.len() == draw_count(placing.draws_rotation(), poses.len())
    &&& forall|i: int|
        0 <= i < poses.len() ==> is_pose_for(
            placing,
            number_at(placing.draws_scale(), draws.scale_numbers, i),
            number_at(placing.draws_rotation(), draws.rotation_numbers, i),
            #[trigger] poses[i],
        )
}

/// Whether the copies of a row are scaled and turned by some numbers drawn from the seeds.
pub open spec fn are_row_poses(placing: RandomPlacement, seeds: (u64, u64), poses: Seq<Pose>) -> bool {
    exists|draws: RowDraws| #[trigger] are_posed_by(placing, seeds, poses, draws)
}

/// Of all poses, those at the points of a row.
pub open spec fn row_poses(points: Seq<PointsRow>, poses: Seq<Pose>, row: int) -> Seq<Pose> {
    poses.subrange(points_in(points, row as nat) as int, points_in(points, (row + 1) as nat) as int)
}

/// Whether the poses are those of the copies at the points of the first rows, drawn for each row from the seeds anew.
pub open spec fn are_poses(placing: RandomPlacement, seeds: (u64, u64), points: Seq<PointsRow>, poses: Seq<Pose>, n: nat) -> bool {
    &&& poses.len() == points_in(points, n)
    &&& forall|row: int| 0 <= row < n ==> are_row_poses(placing, seeds, #[trigger] row_poses(points, poses, row))
}

/// Draws a number from zero to below one, if one is drawn at all.
fn draw(draws: bool, generator: &mut StdRng) -> (number: Option<DVec2>)
    ensures
        number is Some == draws,
        number matches Some(n) ==> is_fraction(n) && draws_from(*old(generator)).contains((n, *final(generator))),
        !draws ==> *final(generator) == *old(generator),
{
    if draws {
        Some(random_fraction(generator))
    } else {
        None
    }
}

/// Poses the copies at the points of a row.
fn pose_row(count: usize, placing: RandomPlacement, scale_seed: u64, rotation_seed: u64) -> (poses: Vec<Pose>)
    ensures
        poses@.len() == count,
        are_row_poses(placing, (scale_seed, rotation_seed), poses@),
{
    let draws_scale: bool = less(reciprocal(1_000_000), absolute(minus(placing.scale_max, placing.scale_min)));
    let draws_rotation: bool = less(reciprocal(1_000_000), absolute(placing.rotation));
    let ghost seeds = (scale_seed, rotation_seed);
    let mut scale_generator: StdRng = seeded(scale_seed);
    let mut rotation_generator: StdRng = seeded(rotation_seed);
    let ghost mut all = RowDraws {
        scale_generators: seq![scale_generator],
        scale_numbers: Seq::empty(),
        rotation_generators: seq![rotation_generator],
        rotation_numbers: Seq::empty(),
    };
    let mut poses: Vec<Pose> = Vec::new();
    let mut i: usize = 0;
    while i < count
        invariant
            i <= count,
            poses@.len() == i,
            seeds == (scale_seed, rotation_seed),
            draws_scale == placing.draws_scale(),
            draws_rotation == placing.draws_rotation(),
            are_posed_by(placing, seeds, poses@, all),
            all.scale_generators.last() == scale_generator,
            all.rotation_generators.last() == rotation_generator,
        decreases count - i,
    {
        let rotation_number: Option<DVec2> = draw(draws_rotation, &mut rotation_generator);
        let scale_number: Option<DVec2> = draw(draws_scale, &mut scale_generator);
        let scale: DVec2 = match scale_number {
            Some(number) => {
                let place: DVec2 = placing.place(number);
                let scale: DVec2 = placing.scale(Some(place));
                proof {
                    assert(is_place_for(placing, number, place));
                    assert(is_scale_for(placing, Some(number), scale));
                }
                scale
            },
            None => placing.scale(None),
        };
        let pose: Pose = Pose { scale, direction: from_angle(placing.angle(rotation_number)) };
        proof {
            let before = all;
            if let Some(number) = scale_number {
                lemma_draw(all.scale_generators, all.scale_numbers, number, scale_generator);
                all = RowDraws {
                    scale_generators: all.scale_generators.push(scale_generator),
                    scale_numbers: all.scale_numbers.push(number),
                    ..all
                };
            }
            if let Some(number) = rotation_number {
                lemma_draw(all.rotation_generators, all.rotation_numbers, number, rotation_generator);
                all = RowDraws {
                    rotation_generators: all.rotation_generators.push(rotation_generator),
                    rotation_numbers: all.rotation_numbers.push(number),
                    ..all
                };
            }
            let more = poses@.push(pose);
            assert forall|k: int| 0 <= k < more.len() implies is_pose_for(
                placing,
                number_at(draws_scale, all.scale_numbers, k),
                number_at(draws_rotation, all.rotation_numbers, k),
                #[trigger] more[k],
            ) by {
                if k < poses@.len() {
                    assert(more[k] == poses@[k]);
                    assert(number_at(draws_scale, all.scale_numbers, k) == number_at(draws_scale, before.scale_numbers, k));
                    assert(number_at(draws_rotation, all.rotation_numbers, k) == number_at(draws_rotation, before.rotation_numbers, k));
                } else {
                    assert(number_at(draws_scale, all.scale_numbers, k) == scale_number);
                    assert(number_at(draws_rotation, all.rotation_numbers, k) == rotation_number);
                }
            }
        }
        poses.push(pose);
        i += 1;
    }
    proof {
        assert(are_posed_by(placing, seeds, poses@, all));
    }
    poses
}

/// Places a copy of artwork at each of the points, scaled and turned at random.
///
/// The sizes and the angles are drawn here, for each row of points from the seeds anew; what follows from
/// them is what [`RandomPlacement::scale`], [`RandomPlacement::angle`] and [`copy_to_points_by_poses`] do.
pub fn copy_to_points(points: &Vec<PointsRow>, rows: &Vec<DAffine2>, placing: RandomPlacement, scale_seed: u64, rotation_seed: u64) -> (result: Vec<Placed>)
    requires
        points_in(points@, points@.len()) <= usize::MAX,
    ensures
        exists|poses: Seq<Pose>|
            {
                &&& #[trigger] are_poses(placing, (scale_seed, rotation_seed), points@, poses, points@.len())
                &&& result@ == copies_at(points@, rows@, poses, points@.len())
            },
{
    let ghost seeds = (scale_seed, rotation_seed);
    let mut poses: Vec<Pose> = Vec::new();
    let mut k: usize = 0;
    while k < points.len()
        invariant
            k <= points.len(),
            seeds == (scale_seed, rotation_seed),
            are_poses(placing, seeds, points@, poses@, k as nat),
        decreases points.len() - k,
    {
        let mut own: Vec<Pose> = pose_row(points[k].positions.len(), placing, scale_seed, rotation_seed);
        let ghost before = poses@;
        let ghost row = own@;
        poses.append(&mut own);
        proof {
            assert(poses@ == before + row);
            assert forall|r: int| 0 <= r < k + 1 implies are_row_poses(placing, seeds, #[trigger] row_poses(points@, poses@, r)) by {
                if r < k {
                    lemma_points_grow(points@, (r + 1) as nat, k as nat);
                    lemma_points_grow(points@, r as nat, (r + 1) as nat);
                    assert(row_poses(points@, poses@, r) == row_poses(points@, before, r));
                } else {
                    assert(row_poses(points@, poses@, r) == row);
                }
            }
        }
        k += 1;
    }
    copy_to_points_by_poses(points, rows, &poses)
}

/// The transform that reflects about the line through the origin at right angles to a direction.
pub open spec fn reflection_of(normal: DVec2) -> DAffine2 {
    let nx = x_of(normal);
    let ny = y_of(normal);
    columns_of(
        mixed_of(
            difference(splat_of(1), product(product(splat_of(2), nx), nx)),
            product(product(splat_of(-2 as i32), ny), nx),
        ),
        mixed_of(
            product(product(splat_of(-2 as i32), nx), ny),
            difference(splat_of(1), product(product(splat_of(2), ny), ny)),
        ),
        zero(),
    )
}

fn reflection(normal: DVec2) -> (result: DAffine2)
    ensures
        result == reflection_of(normal),
{
    let nx: DVec2 = x(normal);
    let ny: DVec2 = y(normal);
    let first: DVec2 = mixed(minus(splat(1), times(times(splat(2), nx), nx)), times(times(splat(-2), ny), nx));
    let second: DVec2 = mixed(times(times(splat(-2), nx), ny), minus(splat(1), times(times(splat(2), ny), ny)));
    from_columns(first, second, splat(0))
}

/// The transform of a mirror image: a reflection about the line at right angles to the normal, an offset
/// away from the reference point, or from the origin without one.
pub open spec fn mirror_transform(reference: Option<DVec2>, offset: DVec2, normal: DVec2) -> DAffine2 {
    match reference {
        Some(point) => {
            let about = sum(point, product(normal, offset));
            composition(composition(translation_of(about), reflection_of(normal)), translation_of(negation(about)))
        },
        None => composition(reflection_of(normal), translation_of(product(normal, negation(offset)))),
    }
}

/// The mirror images, after the originals if those are kept.
pub open spec fn mirrored(rows: Seq<DAffine2>, transform: DAffine2, keep_original: bool) -> Seq<Placed> {
    let originals = Seq::new(rows.len(), |i: int| Placed { row: i as usize, transform: rows[i] });
    if keep_original {
        originals + placed_before(rows, transform)
    } else {
        placed_before(rows, transform)
    }
}

/// Mirrors artwork about the line at right angles to the normal.
pub fn mirror_by_normal(rows: &Vec<DAffine2>, reference: Option<DVec2>, offset: DVec2, normal: DVec2, keep_original: bool) -> (result: Vec<Placed>)
    ensures
        result@ == mirrored(rows@, mirror_transform(reference, offset, normal), keep_original),
{
    let transform: DAffine2 = match reference {
        Some(point) => {
            let about: DVec2 = plus(point, times(normal, offset));
            compose(compose(from_translation(about), reflection(normal)), from_translation(negate(about)))
        },
        None => compose(reflection(normal), from_translation(times(normal, negate(offset)))),
    };
    let mut result: Vec<Placed> = Vec::new();
    if keep_original {
        let ghost originals = Seq::new(rows@.len(), |i: int| Placed { row: i as usize, transform: rows@[i] });
        let mut i: usize = 0;
        while i < rows.len()
            invariant
                i <= rows.len(),
                originals == Seq::new(rows@.len(), |k: int| Placed { row: k as usize, transform: rows@[k] }),
                result@ == originals.take(i as int),
            decreases rows.len() - i,
        {
            result.push(Placed { row: i, transform: rows[i] });
            i += 1;
            proof {
                assert(originals.take(i as int) == originals.take(i - 1).push(originals[i - 1]));
            }
        }
        proof {
            assert(originals.take(i as int) == originals);
        }
    }
    append_before(rows, transform, &mut result);
    result
}

/// Mirrors artwork about a line at an angle in degrees. The bounds are what the artwork covers: `None` if
/// it covers nothing, and otherwise the reference point in them, if one is chosen.
///
/// The sine and cosine of the angle are computed here; what follows from them is what
/// [`mirror_by_normal`] does.
pub fn mirror(rows: &Vec<DAffine2>, bounds: Option<Option<DVec2>>, offset: DVec2, angle: DVec2, keep_original: bool) -> (result: Vec<Placed>)
    ensures
        bounds is None ==> result@ == Seq::<Placed>::empty(),
        bounds matches Some(reference) ==> exists|normal: DVec2|
            #[trigger] directions_of(radians_of(angle)).contains(normal) && result@ == mirrored(
                rows@,
                mirror_transform(reference, offset, normal),
                keep_original,
            ),
{
    match bounds {
        Some(reference) => {
            let normal: DVec2 = from_angle(radians(angle));
            mirror_by_normal(rows, reference, offset, normal, keep_original)
        },
        None => Vec::new(),
    }
}

} // verus!
