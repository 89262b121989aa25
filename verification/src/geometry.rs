//! The plane geometry that the library takes from `glam`.
//!
//! Vectors and transforms are values of `glam`, which this library only carries and hands back to
//! `glam`. A single number (a length, a dot product, a factor) is carried as a vector with both
//! coordinates equal, as `glam` does in `DVec2::dot_into_vec`. What is known of numbers is how they are
//! ordered.
use glam::{DAffine2, DVec2};
use vstd::arithmetic::power2::pow2;
use vstd::prelude::*;

verus! {

/// A vector of the plane, from `glam`.
#[verifier::external_type_specification]
#[verifier::external_body]
pub struct ExDVec2(glam::DVec2);

/// An affine transform of the plane, from `glam`.
#[verifier::external_type_specification]
#[verifier::external_body]
pub struct ExDAffine2(glam::DAffine2);

/// How many of the smallest positive double precision numbers make up the number one.
pub open spec fn unit_count() -> int {
    pow2(1074) as int
}

/// The coordinates of a vector, as multiples of the smallest positive double precision number. Each finite
/// number is such a multiple; infinity counts as one beyond all of them, negative infinity as its opposite, and what is
/// not a number has none.
pub uninterp spec fn units_of(a: DVec2) -> (Option<int>, Option<int>);

/// Whether each coordinate of one vector is below that of the other. What is not a number is not below anything.
pub open spec fn is_less(a: DVec2, b: DVec2) -> bool {
    &&& units_of(a).0 matches Some(x) && units_of(b).0 matches Some(other) && x < other
    &&& units_of(a).1 matches Some(y) && units_of(b).1 matches Some(other) && y < other
}

/// Whether no coordinate of one vector is above that of the other. What is not a number is not at most anything.
pub open spec fn is_at_most(a: DVec2, b: DVec2) -> bool {
    &&& units_of(a).0 matches Some(x) && units_of(b).0 matches Some(other) && x <= other
    &&& units_of(a).1 matches Some(y) && units_of(b).1 matches Some(other) && y <= other
}

/// What `DVec2::add` computes.
pub uninterp spec fn sum(a: DVec2, b: DVec2) -> DVec2;

/// Calls the `+` of `DVec2`. The result is named: it depends on the two operands alone.
#[verifier::external_body]
pub(crate) fn plus(a: DVec2, b: DVec2) -> (result: DVec2)
    ensures
        result == sum(a, b),
{
    a + b
}

/// What `DVec2::sub` computes.
pub uninterp spec fn difference(a: DVec2, b: DVec2) -> DVec2;

/// Calls the `-` of `DVec2`. The result is named: it depends on the two operands alone. Each coordinate is the number
/// nearest to the exact difference: it is below zero only where what is taken away is more than there is, and more is
/// left than there was only where what is taken away is below zero.
#[verifier::external_body]
pub(crate) fn minus(a: DVec2, b: DVec2) -> (result: DVec2)
    ensures
        result == difference(a, b),
        is_less(result, zero()) ==> is_less(a, b),
        is_less(a, result) ==> is_less(b, zero()),
{
    a - b
}

/// What `DAffine2::transform_point2` computes.
pub uninterp spec fn transformed_point(transform: DAffine2, point: DVec2) -> DVec2;

/// Calls `DAffine2::transform_point2`. The result is named: it depends on the transform and the
/// point alone.
#[verifier::external_body]
pub(crate) fn transform_point(transform: DAffine2, point: DVec2) -> (result: DVec2)
    ensures
        result == transformed_point(transform, point),
{
    transform.transform_point2(point)
}

/// What `DVec2::splat` makes of a whole number.
pub uninterp spec fn splat_of(n: i32) -> DVec2;

/// Calls `DVec2::splat` on a whole number, which a double precision number holds exactly. The result is named:
/// it depends on the number alone.
#[verifier::external_body]
pub(crate) fn splat(n: i32) -> (result: DVec2)
    ensures
        result == splat_of(n),
        units_of(result) == (Some(n * unit_count()), Some(n * unit_count())),
{
    DVec2::splat(n.into())
}

/// The vector of no length.
pub open spec fn zero() -> DVec2 {
    splat_of(0)
}

/// What `DVec2::new` makes of two whole numbers.
pub uninterp spec fn vector_of(x: i32, y: i32) -> DVec2;

/// Calls `DVec2::new` on two whole numbers, which double precision numbers hold exactly. The result is named: it depends
/// on them alone.
#[verifier::external_body]
pub(crate) fn vector(x: i32, y: i32) -> (result: DVec2)
    ensures
        result == vector_of(x, y),
        units_of(result) == (Some(x * unit_count()), Some(y * unit_count())),
{
    DVec2::new(x.into(), y.into())
}

/// What `DVec2::mul` computes.
pub uninterp spec fn product(a: DVec2, b: DVec2) -> DVec2;

/// Calls the `*` of two `DVec2`, which multiplies coordinate by coordinate. The result is named:
/// it depends on the two operands alone.
#[verifier::external_body]
pub(crate) fn times(a: DVec2, b: DVec2) -> (result: DVec2)
    ensures
        result == product(a, b),
{
    a * b
}

/// What `DVec2::div` computes.
pub uninterp spec fn quotient(a: DVec2, b: DVec2) -> DVec2;

/// Calls the `/` of two `DVec2`, which divides coordinate by coordinate. The result is named: it
/// depends on the two operands alone.
#[verifier::external_body]
pub(crate) fn divide(a: DVec2, b: DVec2) -> (result: DVec2)
    ensures
        result == quotient(a, b),
{
    a / b
}

/// A coordinate with the other sign.
pub open spec fn opposite_units(units: Option<int>) -> Option<int> {
    match units {
        Some(n) => Some(-n),
        None => None,
    }
}

/// A coordinate without its sign.
pub open spec fn unsigned_units(units: Option<int>) -> Option<int> {
    match units {
        Some(n) => Some(if n < 0 { -n } else { n }),
        None => None,
    }
}

/// What `DVec2::neg` computes.
pub uninterp spec fn negation(a: DVec2) -> DVec2;

/// Calls the `-` of one `DVec2`, which changes the signs of both coordinates. The result is named: it depends on the
/// operand alone.
#[verifier::external_body]
pub(crate) fn negate(a: DVec2) -> (result: DVec2)
    ensures
        result == negation(a),
        units_of(result) == (opposite_units(units_of(a).0), opposite_units(units_of(a).1)),
{
    -a
}

/// What `DVec2::length` computes, in both coordinates.
pub uninterp spec fn length_of(a: DVec2) -> DVec2;

/// Calls `DVec2::length`. The result is named: it depends on the vector alone.
#[verifier::external_body]
pub(crate) fn length(a: DVec2) -> (result: DVec2)
    ensures
        result == length_of(a),
{
    DVec2::splat(a.length())
}

/// What `DVec2::try_normalize` computes.
pub uninterp spec fn unit(a: DVec2) -> Option<DVec2>;

/// Calls `DVec2::try_normalize`. The result is named: it depends on the vector alone.
#[verifier::external_body]
pub(crate) fn try_normalize(a: DVec2) -> (result: Option<DVec2>)
    ensures
        result == unit(a),
{
    a.try_normalize()
}

/// What `DVec2::dot_into_vec` computes.
pub uninterp spec fn dot_product(a: DVec2, b: DVec2) -> DVec2;

/// Calls `DVec2::dot_into_vec`, which gives the dot product in both coordinates. The result is
/// named: it depends on the two operands alone.
#[verifier::external_body]
pub(crate) fn dot(a: DVec2, b: DVec2) -> (result: DVec2)
    ensures
        result == dot_product(a, b),
{
    a.dot_into_vec(b)
}

/// What `DVec2::abs` computes.
pub uninterp spec fn absolute_of(a: DVec2) -> DVec2;

/// Calls `DVec2::abs`, which drops the signs of both coordinates. The result is named: it depends on the vector alone.
#[verifier::external_body]
pub(crate) fn absolute(a: DVec2) -> (result: DVec2)
    ensures
        result == absolute_of(a),
        units_of(result) == (unsigned_units(units_of(a).0), unsigned_units(units_of(a).1)),
{
    a.abs()
}

/// Calls `DVec2::cmplt` and asks for both coordinates. It compares the numbers that the coordinates are.
#[verifier::external_body]
pub(crate) fn less(a: DVec2, b: DVec2) -> (result: bool)
    ensures
        result == is_less(a, b),
{
    a.cmplt(b).all()
}

/// Calls `DVec2::cmple` and asks for both coordinates. It compares the numbers that the coordinates are.
#[verifier::external_body]
pub(crate) fn at_most(a: DVec2, b: DVec2) -> (result: bool)
    ensures
        result == is_at_most(a, b),
{
    a.cmple(b).all()
}

/// What `DAffine2::transform_vector2` computes.
pub uninterp spec fn transformed_vector(transform: DAffine2, vector: DVec2) -> DVec2;

/// Calls `DAffine2::transform_vector2`. The result is named: it depends on the transform and the
/// vector alone.
#[verifier::external_body]
pub(crate) fn transform_vector(transform: DAffine2, vector: DVec2) -> (result: DVec2)
    ensures
        result == transformed_vector(transform, vector),
{
    transform.transform_vector2(vector)
}

/// What `DAffine2::inverse` computes.
pub uninterp spec fn inverse_of(transform: DAffine2) -> DAffine2;

/// Calls `DAffine2::inverse`. The result is named: it depends on the transform alone.
#[verifier::external_body]
pub(crate) fn inverse(transform: DAffine2) -> (result: DAffine2)
    ensures
        result == inverse_of(transform),
{
    transform.inverse()
}

/// What `DAffine2::mul` computes.
pub uninterp spec fn composition(outer: DAffine2, inner: DAffine2) -> DAffine2;

/// Calls the `*` of two `DAffine2`. The result is named: it depends on the two operands alone.
#[verifier::external_body]
pub(crate) fn compose(outer: DAffine2, inner: DAffine2) -> (result: DAffine2)
    ensures
        result == composition(outer, inner),
{
    outer * inner
}

/// The direction of a vector, or the vector of no length where it has none.
pub open spec fn unit_or_zero(a: DVec2) -> DVec2 {
    match unit(a) {
        Some(direction) => direction,
        None => zero(),
    }
}

pub(crate) fn normalize_or_zero(a: DVec2) -> (result: DVec2)
    ensures
        result == unit_or_zero(a),
{
    match try_normalize(a) {
        Some(direction) => direction,
        None => splat(0),
    }
}

/// The squared length of a vector: the dot product with itself.
pub open spec fn squared_length(a: DVec2) -> DVec2 {
    dot_product(a, a)
}

/// One divided by a whole number.
pub open spec fn reciprocal_of(n: i32) -> DVec2 {
    quotient(splat_of(1), splat_of(n))
}

pub(crate) fn reciprocal(n: i32) -> (result: DVec2)
    ensures
        result == reciprocal_of(n),
{
    divide(splat(1), splat(n))
}

/// The distance from one to the next larger double precision number, two to the power of -52.
pub open spec fn epsilon() -> DVec2 {
    product(reciprocal_of(0x400_0000), reciprocal_of(0x400_0000))
}

/// The distance from one to the next larger double precision number, times a whole number.
pub open spec fn epsilons_of(n: i32) -> DVec2 {
    product(epsilon(), splat_of(n))
}

pub(crate) fn epsilons(n: i32) -> (result: DVec2)
    ensures
        result == epsilons_of(n),
{
    times(times(reciprocal(0x400_0000), reciprocal(0x400_0000)), splat(n))
}

/// The squared distance of two points, in both coordinates.
pub open spec fn squared_distance_of(a: DVec2, b: DVec2) -> DVec2 {
    squared_length(difference(a, b))
}

pub(crate) fn squared_distance(a: DVec2, b: DVec2) -> (result: DVec2)
    ensures
        result == squared_distance_of(a, b),
{
    let apart: DVec2 = minus(a, b);
    dot(apart, apart)
}

/// Whether two vectors differ in no coordinate by more than the tolerance.
pub open spec fn is_close(a: DVec2, b: DVec2, tolerance: DVec2) -> bool {
    is_at_most(absolute_of(difference(a, b)), tolerance)
}

pub(crate) fn close(a: DVec2, b: DVec2, tolerance: DVec2) -> (result: bool)
    ensures
        result == is_close(a, b, tolerance),
{
    at_most(absolute(minus(a, b)), tolerance)
}

/// What `DVec2::perp_dot` computes, in both coordinates.
pub uninterp spec fn cross_product(a: DVec2, b: DVec2) -> DVec2;

/// Calls `DVec2::perp_dot`. The result is named: it depends on the two operands alone.
#[verifier::external_body]
pub(crate) fn cross(a: DVec2, b: DVec2) -> (result: DVec2)
    ensures
        result == cross_product(a, b),
{
    DVec2::splat(a.perp_dot(b))
}

/// All that `DVec2::angle_to` may give for two vectors, in both coordinates, on one platform or another.
pub uninterp spec fn angles_between(a: DVec2, b: DVec2) -> Set<DVec2>;

/// Calls `DVec2::angle_to` and gives the angle in both coordinates. It is only said to be one of those that may be
/// given for the two vectors: it is computed by an arc cosine, whose last digits differ from one platform to
/// another.
#[verifier::external_body]
pub(crate) fn angle(a: DVec2, b: DVec2) -> (result: DVec2)
    ensures
        angles_between(a, b).contains(result),
{
    DVec2::splat(a.angle_to(b))
}

/// The double precision number nearest to the length of a circle of radius one: the whole number
/// 7074237752028440, divided by two to the power of 50.
pub open spec fn tau() -> DVec2 {
    product(
        product(sum(product(splat_of(0x1921_FB54), splat_of(0x100_0000)), splat_of(0x44_2D18)), reciprocal_of(0x200_0000)),
        reciprocal_of(0x200_0000),
    )
}

pub(crate) fn full_turn() -> (result: DVec2)
    ensures
        result == tau(),
{
    times(
        times(plus(times(splat(0x1921_FB54), splat(0x100_0000)), splat(0x44_2D18)), reciprocal(0x200_0000)),
        reciprocal(0x200_0000),
    )
}

/// What `DVec2::perp` computes.
pub uninterp spec fn perpendicular(a: DVec2) -> DVec2;

/// Calls `DVec2::perp`. The result is named: it depends on the vector alone.
#[verifier::external_body]
pub(crate) fn perp(a: DVec2) -> (result: DVec2)
    ensures
        result == perpendicular(a),
{
    a.perp()
}

/// The smaller of two numbers, or the other where one is not a number. Of equal ones it is the first.
pub open spec fn smaller_of(a: DVec2, b: DVec2) -> DVec2 {
    if is_less(b, a) || !is_at_most(a, a) {
        b
    } else {
        a
    }
}

fn smaller(a: DVec2, b: DVec2) -> (result: DVec2)
    ensures
        result == smaller_of(a, b),
{
    if less(b, a) || !at_most(a, a) {
        b
    } else {
        a
    }
}

/// The larger of two numbers, or the other where one is not a number. Of equal ones it is the first.
pub open spec fn larger_of(a: DVec2, b: DVec2) -> DVec2 {
    if is_less(a, b) || !is_at_most(a, a) {
        b
    } else {
        a
    }
}

fn larger(a: DVec2, b: DVec2) -> (result: DVec2)
    ensures
        result == larger_of(a, b),
{
    if less(a, b) || !at_most(a, a) {
        b
    } else {
        a
    }
}

/// The smaller of two coordinates, or the other where one is not a number.
pub open spec fn least_units(a: Option<int>, b: Option<int>) -> Option<int> {
    match (a, b) {
        (Some(x), Some(y)) => Some(if x < y { x } else { y }),
        (Some(x), None) => Some(x),
        (None, other) => other,
    }
}

/// The larger of two coordinates, or the other where one is not a number.
pub open spec fn greatest_units(a: Option<int>, b: Option<int>) -> Option<int> {
    match (a, b) {
        (Some(x), Some(y)) => Some(if x < y { y } else { x }),
        (Some(x), None) => Some(x),
        (None, other) => other,
    }
}

/// The vector of the smaller of each pair of coordinates.
pub open spec fn lower_of(a: DVec2, b: DVec2) -> DVec2 {
    mixed_of(smaller_of(x_of(a), x_of(b)), smaller_of(y_of(a), y_of(b)))
}

pub(crate) fn lower(a: DVec2, b: DVec2) -> (result: DVec2)
    ensures
        result == lower_of(a, b),
        units_of(result) == (least_units(units_of(a).0, units_of(b).0), least_units(units_of(a).1, units_of(b).1)),
{
    mixed(smaller(x(a), x(b)), smaller(y(a), y(b)))
}

/// The vector of the larger of each pair of coordinates.
pub open spec fn upper_of(a: DVec2, b: DVec2) -> DVec2 {
    mixed_of(larger_of(x_of(a), x_of(b)), larger_of(y_of(a), y_of(b)))
}

pub(crate) fn upper(a: DVec2, b: DVec2) -> (result: DVec2)
    ensures
        result == upper_of(a, b),
        units_of(result) == (greatest_units(units_of(a).0, units_of(b).0), greatest_units(units_of(a).1, units_of(b).1)),
{
    mixed(larger(x(a), x(b)), larger(y(a), y(b)))
}

/// The second coordinate of a vector, in both coordinates.
pub uninterp spec fn y_of(a: DVec2) -> DVec2;

/// Reads the second coordinate of a `DVec2`. The result is named: it depends on the vector alone.
#[verifier::external_body]
pub(crate) fn y(a: DVec2) -> (result: DVec2)
    ensures
        result == y_of(a),
        units_of(result) == (units_of(a).1, units_of(a).1),
{
    DVec2::splat(a.y)
}

/// All that `DVec2::from_angle` may give for the number in the first coordinate of a vector, on one platform or
/// another.
pub uninterp spec fn directions_of(angle: DVec2) -> Set<DVec2>;

/// Calls `DVec2::from_angle`, which gives the cosine and the sine of the angle. They are only said to be some that
/// may be given for the angle: their last digits differ from one platform to another.
#[verifier::external_body]
pub(crate) fn from_angle(angle: DVec2) -> (direction: DVec2)
    ensures
        directions_of(angle).contains(direction),
{
    DVec2::from_angle(angle.x)
}

/// All that `f64::acos` may give for the number in the first coordinate of a vector, in both coordinates, on one
/// platform or another.
pub uninterp spec fn arc_cosines_of(a: DVec2) -> Set<DVec2>;

/// Calls `f64::acos` and gives the angle in both coordinates. It is only said to be one of those that may be given for
/// the number: its last digits differ from one platform to another.
#[verifier::external_body]
pub(crate) fn arc_cosine(a: DVec2) -> (result: DVec2)
    ensures
        arc_cosines_of(a).contains(result),
{
    DVec2::splat(a.x.acos())
}

/// The direction of a vector, or that of the first axis where it has none.
pub open spec fn unit_or_axis(a: DVec2) -> DVec2 {
    match unit(a) {
        Some(direction) => direction,
        None => vector_of(1, 0),
    }
}

pub(crate) fn normalize_or_axis(a: DVec2) -> (result: DVec2)
    ensures
        result == unit_or_axis(a),
{
    match try_normalize(a) {
        Some(direction) => direction,
        None => vector(1, 0),
    }
}

/// Half a full turn.
pub open spec fn pi() -> DVec2 {
    quotient(tau(), splat_of(2))
}

pub(crate) fn half_turn() -> (result: DVec2)
    ensures
        result == pi(),
{
    divide(full_turn(), splat(2))
}

/// The first coordinate of a vector, in both coordinates.
pub uninterp spec fn x_of(a: DVec2) -> DVec2;

/// Reads the first coordinate of a `DVec2`. The result is named: it depends on the vector alone.
#[verifier::external_body]
pub(crate) fn x(a: DVec2) -> (result: DVec2)
    ensures
        result == x_of(a),
        units_of(result) == (units_of(a).0, units_of(a).0),
{
    DVec2::splat(a.x)
}

/// The vector with the first coordinate of one and the second of the other.
pub uninterp spec fn mixed_of(a: DVec2, b: DVec2) -> DVec2;

/// Calls `DVec2::new` with the first coordinate of one vector and the second of another. The result is
/// named: it depends on the two vectors alone.
#[verifier::external_body]
pub(crate) fn mixed(a: DVec2, b: DVec2) -> (result: DVec2)
    ensures
        result == mixed_of(a, b),
        units_of(result) == (units_of(a).0, units_of(b).1),
{
    DVec2::new(a.x, b.y)
}

/// What `DMat2::determinant` computes for the matrix of a transform, in both coordinates.
pub uninterp spec fn determinant_of(transform: DAffine2) -> DVec2;

/// Calls `DMat2::determinant` for the matrix of the transform. The result is named: it depends on the
/// transform alone.
#[verifier::external_body]
pub(crate) fn determinant(transform: DAffine2) -> (result: DVec2)
    ensures
        result == determinant_of(transform),
{
    DVec2::splat(transform.matrix2.determinant())
}

/// What `DAffine2::from_translation` makes.
pub uninterp spec fn translation_of(translation: DVec2) -> DAffine2;

/// Calls `DAffine2::from_translation`. The result is named: it depends on the translation alone.
#[verifier::external_body]
pub(crate) fn from_translation(translation: DVec2) -> (result: DAffine2)
    ensures
        result == translation_of(translation),
{
    DAffine2::from_translation(translation)
}

/// The transform that changes nothing.
pub open spec fn identity() -> DAffine2 {
    translation_of(zero())
}

/// Whether the number that the vector holds in both coordinates is zero.
pub open spec fn is_zero(a: DVec2) -> bool {
    is_at_most(a, zero()) && is_at_most(zero(), a)
}

pub(crate) fn equals_zero(a: DVec2) -> (result: bool)
    ensures
        result == is_zero(a),
{
    at_most(a, splat(0)) && at_most(splat(0), a)
}

/// A whole number, in both coordinates.
pub uninterp spec fn number_of(n: u64) -> DVec2;

/// Calls `U64Vec2::as_dvec2` for a whole number in both coordinates, which gives a number near to it that is not
/// negative. The result is named: it depends on the number alone.
#[verifier::external_body]
pub(crate) fn number(n: u64) -> (result: DVec2)
    ensures
        result == number_of(n),
        is_at_most(zero(), result),
{
    glam::U64Vec2::splat(n).as_dvec2()
}

/// What `DVec2::as_u64vec2` gives for the first coordinate.
pub uninterp spec fn whole_of(a: DVec2) -> u64;

/// Calls `DVec2::as_u64vec2`, which drops what follows the point, and gives the first coordinate. The
/// result is named: it depends on the vector alone.
#[verifier::external_body]
pub(crate) fn whole(a: DVec2) -> (result: u64)
    ensures
        result == whole_of(a),
{
    a.as_u64vec2().x
}

/// What `DVec2::fract` computes.
pub uninterp spec fn fraction_of(a: DVec2) -> DVec2;

/// Calls `DVec2::fract`, which keeps what follows the point of each coordinate. The result is named: it
/// depends on the vector alone.
#[verifier::external_body]
pub(crate) fn fraction(a: DVec2) -> (result: DVec2)
    ensures
        result == fraction_of(a),
{
    a.fract()
}

/// What `DVec2::rem` computes.
pub uninterp spec fn remainder_of(a: DVec2, b: DVec2) -> DVec2;

/// Calls the `%` of `DVec2`. The result is named: it depends on the two operands alone.
#[verifier::external_body]
pub(crate) fn remainder(a: DVec2, b: DVec2) -> (result: DVec2)
    ensures
        result == remainder_of(a, b),
{
    a % b
}

/// The translation that a transform holds.
pub uninterp spec fn offset_in(transform: DAffine2) -> DVec2;

/// Reads the translation of a `DAffine2`. The result is named: it depends on the transform alone.
#[verifier::external_body]
pub(crate) fn offset(transform: DAffine2) -> (result: DVec2)
    ensures
        result == offset_in(transform),
{
    transform.translation
}

/// What `DAffine2::from_mat2` makes of the matrix of a transform.
pub uninterp spec fn linear_part_of(transform: DAffine2) -> DAffine2;

/// Calls `DAffine2::from_mat2` with the matrix of the transform. The result is named: it depends on the
/// transform alone.
#[verifier::external_body]
pub(crate) fn linear_part(transform: DAffine2) -> (result: DAffine2)
    ensures
        result == linear_part_of(transform),
{
    DAffine2::from_mat2(transform.matrix2)
}

/// What `DAffine2::from_cols` makes.
pub uninterp spec fn columns_of(first: DVec2, second: DVec2, translation: DVec2) -> DAffine2;

/// Calls `DAffine2::from_cols`. The result is named: it depends on the three columns alone.
#[verifier::external_body]
pub(crate) fn from_columns(first: DVec2, second: DVec2, translation: DVec2) -> (result: DAffine2)
    ensures
        result == columns_of(first, second, translation),
{
    DAffine2::from_cols(first, second, translation)
}

/// The transform that turns the first axis into a direction, scales by a number and then moves by a
/// translation.
pub open spec fn placement_of(direction: DVec2, scale: DVec2, translation: DVec2) -> DAffine2 {
    columns_of(product(direction, scale), product(perpendicular(direction), scale), translation)
}

pub(crate) fn placement(direction: DVec2, scale: DVec2, translation: DVec2) -> (result: DAffine2)
    ensures
        result == placement_of(direction, scale, translation),
{
    from_columns(times(direction, scale), times(perp(direction), scale), translation)
}

/// The transform that turns the first axis into a direction.
pub open spec fn rotation_of(direction: DVec2) -> DAffine2 {
    columns_of(direction, perpendicular(direction), zero())
}

pub(crate) fn rotation(direction: DVec2) -> (result: DAffine2)
    ensures
        result == rotation_of(direction),
{
    from_columns(direction, perp(direction), splat(0))
}

/// An angle given in degrees, in radians.
pub open spec fn radians_of(degrees: DVec2) -> DVec2 {
    product(degrees, quotient(pi(), splat_of(180)))
}

pub(crate) fn radians(degrees: DVec2) -> (result: DVec2)
    ensures
        result == radians_of(degrees),
{
    times(degrees, divide(half_turn(), splat(180)))
}

/// What `DVec2::round` computes.
pub uninterp spec fn rounded_of(a: DVec2) -> DVec2;

/// Calls `DVec2::round`. The result is named: it depends on the vector alone.
#[verifier::external_body]
pub(crate) fn round(a: DVec2) -> (result: DVec2)
    ensures
        result == rounded_of(a),
{
    a.round()
}

/// A number held between two others is held already.
pub proof fn holding_twice_is_holding(a: DVec2, low: DVec2, high: DVec2)
    requires
        !is_less(high, low),
    ensures
        clamped_of(clamped_of(a, low, high), low, high) == clamped_of(a, low, high),
{
}

/// A number held between two others is between them, and the same if it is between them already. One that is below both
/// is held at the lower, and one that is above both at the upper.
pub proof fn held_numbers_are_between(a: DVec2, low: DVec2, high: DVec2)
    requires
        is_at_most(low, high),
    ensures
        is_at_most(low, a) && is_at_most(a, high) ==> clamped_of(a, low, high) == a,
        is_less(a, low) ==> clamped_of(a, low, high) == low,
        is_less(high, a) ==> clamped_of(a, low, high) == high,
        !is_less(clamped_of(a, low, high), low),
        !is_less(high, clamped_of(a, low, high)),
{
}

/// Numbers that are whole are ordered as those are.
pub(crate) proof fn lemma_units_are_ordered(n: int, m: int)
    requires
        n <= m,
    ensures
        n * unit_count() <= m * unit_count(),
        n < m ==> n * unit_count() < m * unit_count(),
{
    vstd::arithmetic::power2::lemma_pow2_pos(1074);
    let unit = unit_count();
    assert(n * unit <= m * unit && (n < m ==> n * unit < m * unit)) by (nonlinear_arith)
        requires
            n <= m,
            unit > 0,
    ;
}

/// A number held between two others.
pub open spec fn clamped_of(a: DVec2, low: DVec2, high: DVec2) -> DVec2 {
    if is_less(a, low) {
        low
    } else if is_less(high, a) {
        high
    } else {
        a
    }
}

pub(crate) fn clamp(a: DVec2, low: DVec2, high: DVec2) -> (result: DVec2)
    ensures
        result == clamped_of(a, low, high),
{
    if less(a, low) {
        low
    } else if less(high, a) {
        high
    } else {
        a
    }
}

/// A number multiplied by itself to sixteen times.
pub open spec fn sixteenth_power(a: DVec2) -> DVec2 {
    let second = product(a, a);
    let fourth = product(second, second);
    let eighth = product(fourth, fourth);
    product(eighth, eighth)
}

/// The largest double precision number: two to the power of 1024, without the last of the 53 digits that
/// such a number has.
pub open spec fn largest() -> DVec2 {
    product(
        product(sixteenth_power(number_of(0x8000_0000_0000_0000)), splat_of(0x8000)),
        difference(splat_of(2), epsilons_of(1)),
    )
}

pub(crate) fn greatest() -> (result: DVec2)
    ensures
        result == largest(),
{
    let a: DVec2 = number(0x8000_0000_0000_0000);
    let second: DVec2 = times(a, a);
    let fourth: DVec2 = times(second, second);
    let eighth: DVec2 = times(fourth, fourth);
    times(times(times(eighth, eighth), splat(0x8000)), minus(splat(2), epsilons(1)))
}

/// The transform back: the inverse, if there is one.
pub open spec fn way_back_of(transform: DAffine2) -> DAffine2 {
    if is_zero(determinant_of(transform)) {
        identity()
    } else {
        inverse_of(transform)
    }
}

pub(crate) fn way_back(transform: DAffine2) -> (result: DAffine2)
    ensures
        result == way_back_of(transform),
{
    if equals_zero(determinant(transform)) {
        from_translation(splat(0))
    } else {
        inverse(transform)
    }
}

/// A position relative to another one.
pub open spec fn relative_to(position: Option<DVec2>, origin: DVec2) -> Option<DVec2> {
    match position {
        Some(p) => Some(difference(p, origin)),
        None => None,
    }
}

pub(crate) fn relative(position: Option<DVec2>, origin: DVec2) -> (result: Option<DVec2>)
    ensures
        result == relative_to(position, origin),
{
    match position {
        Some(p) => Some(minus(p, origin)),
        None => None,
    }
}

} // verus!
