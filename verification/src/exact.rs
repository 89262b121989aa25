//! What vectors and transforms are in exact arithmetic, for the laws that say what is computed with them.
//!
//! The numbers of `glam` and `kurbo` are rounded at each step. What a sequence of steps is for is said of numbers
//! that are not: a law about it holds for every reading of vectors as pairs of real numbers in which each step is
//! exact.
use glam::{DAffine2, DVec2};
use kurbo::Point;
use vstd::prelude::*;

use crate::geometry::{
    absolute_of, angles_between, arc_cosines_of, columns_of, composition, cross_product, determinant_of, difference, directions_of, dot_product, inverse_of,
    is_at_most, is_less, length_of, linear_part_of, mixed_of, negation, number_of, offset_in, perpendicular, pi, product, quotient, remainder_of, splat_of,
    sum, transformed_point, transformed_vector, translation_of, unit, vector_of, x_of, y_of, zero,
};
use crate::paths::{affine_image, affine_inverse, lerp_of, normalized_of, point_of, position_of, scalar_product_of};

verus! {

/// A pair of real numbers.
pub struct Pair {
    pub x: real,
    pub y: real,
}

impl Pair {
    pub open spec fn plus(self, other: Pair) -> Pair {
        Pair { x: self.x + other.x, y: self.y + other.y }
    }

    pub open spec fn minus(self, other: Pair) -> Pair {
        Pair { x: self.x - other.x, y: self.y - other.y }
    }

    pub open spec fn scaled(self, factor: real) -> Pair {
        Pair { x: self.x * factor, y: self.y * factor }
    }

    pub open spec fn dot(self, other: Pair) -> real {
        self.x * other.x + self.y * other.y
    }

    pub open spec fn cross(self, other: Pair) -> real {
        self.x * other.y - self.y * other.x
    }

    pub open spec fn times(self, other: Pair) -> Pair {
        Pair { x: self.x * other.x, y: self.y * other.y }
    }

    pub open spec fn opposite(self) -> Pair {
        Pair { x: -self.x, y: -self.y }
    }

    /// A quarter of a turn further.
    pub open spec fn turned(self) -> Pair {
        Pair { x: -self.y, y: self.x }
    }

    pub open spec fn is_zero(self) -> bool {
        self.x == 0 as real && self.y == 0 as real
    }

    /// The same number in both coordinates.
    pub open spec fn both(n: real) -> Pair {
        Pair { x: n, y: n }
    }

    /// A vector of the length one.
    pub open spec fn is_unit(self) -> bool {
        self.dot(self) == 1 as real
    }

    /// Whether this is a vector of a length along a vector of the length one.
    pub open spec fn points_along(self, direction: Pair, length: real) -> bool {
        &&& direction.is_unit()
        &&& length > 0 as real
        &&& self == direction.scaled(length)
    }
}

/// A number without its sign.
pub open spec fn without_sign(n: real) -> real {
    if n < 0 as real {
        -n
    } else {
        n
    }
}

/// A transform: where it takes the two axes and the origin.
pub struct Frame {
    pub x_axis: Pair,
    pub y_axis: Pair,
    pub origin: Pair,
}

impl Frame {
    #[verifier::opaque]
    pub open spec fn turn(self, vector: Pair) -> Pair {
        self.x_axis.scaled(vector.x).plus(self.y_axis.scaled(vector.y))
    }

    pub open spec fn take(self, point: Pair) -> Pair {
        self.turn(point).plus(self.origin)
    }

    pub open spec fn after(self, inner: Frame) -> Frame {
        Frame { x_axis: self.turn(inner.x_axis), y_axis: self.turn(inner.y_axis), origin: self.take(inner.origin) }
    }

    #[verifier::opaque]
    pub open spec fn determinant(self) -> real {
        self.x_axis.cross(self.y_axis)
    }

    /// The frame that takes each point to itself.
    pub open spec fn still() -> Frame {
        Frame {
            x_axis: Pair { x: 1 as real, y: 0 as real },
            y_axis: Pair { x: 0 as real, y: 1 as real },
            origin: Pair::both(0 as real),
        }
    }
}

/// A reading of vectors, transforms and angles as real numbers.
pub struct Exact {
    pub at: spec_fn(DVec2) -> Pair,
    pub frame: spec_fn(DAffine2) -> Frame,
    pub cos: spec_fn(real) -> real,
    pub sin: spec_fn(real) -> real,
}

impl Exact {
    pub open spec fn of(self, a: DVec2) -> Pair {
        (self.at)(a)
    }

    /// A number that is carried in both coordinates.
    pub open spec fn is_number(self, a: DVec2, n: real) -> bool {
        self.of(a) == Pair::both(n)
    }

    pub open spec fn point(self, p: Point) -> Pair {
        self.of(position_of(p))
    }

    /// Sums, products and the like are exact.
    pub open spec fn has_arithmetic(self) -> bool {
        &&& forall|a: DVec2, b: DVec2| self.of(#[trigger] sum(a, b)) == self.of(a).plus(self.of(b))
        &&& forall|a: DVec2, b: DVec2| self.of(#[trigger] difference(a, b)) == self.of(a).minus(self.of(b))
        &&& forall|a: DVec2, b: DVec2| self.of(#[trigger] product(a, b)) == self.of(a).times(self.of(b))
        &&& forall|a: DVec2, b: DVec2|
            self.of(b).x != 0 as real && self.of(b).y != 0 as real ==> self.of(#[trigger] quotient(a, b)) == (Pair {
                x: self.of(a).x / self.of(b).x,
                y: self.of(a).y / self.of(b).y,
            })
        &&& forall|a: DVec2| self.of(#[trigger] negation(a)) == self.of(a).opposite()
        &&& forall|n: i32| self.is_number(#[trigger] splat_of(n), n as real)
        &&& forall|n: u64| self.is_number(#[trigger] number_of(n), n as real)
        &&& forall|n: u64, m: u64| m > 0 ==> self.is_number(#[trigger] remainder_of(number_of(n), number_of(m)), (n % m) as real)
        &&& forall|x: i32, y: i32| self.of(#[trigger] vector_of(x, y)) == (Pair { x: x as real, y: y as real })
        &&& forall|a: DVec2| self.is_number(#[trigger] x_of(a), self.of(a).x)
        &&& forall|a: DVec2| self.is_number(#[trigger] y_of(a), self.of(a).y)
        &&& forall|a: DVec2, b: DVec2| self.of(#[trigger] mixed_of(a, b)) == (Pair { x: self.of(a).x, y: self.of(b).y })
    }

    /// Lengths and directions are exact.
    pub open spec fn has_lengths(self) -> bool {
        &&& forall|a: DVec2, b: DVec2| self.is_number(#[trigger] dot_product(a, b), self.of(a).dot(self.of(b)))
        &&& forall|a: DVec2, b: DVec2| self.is_number(#[trigger] scalar_product_of(a, b), self.of(a).dot(self.of(b)))
        &&& forall|a: DVec2, b: DVec2| self.is_number(#[trigger] cross_product(a, b), self.of(a).cross(self.of(b)))
        &&& forall|a: DVec2| self.of(#[trigger] perpendicular(a)) == self.of(a).turned()
        &&& forall|a: DVec2| self.of(#[trigger] absolute_of(a)) == (Pair { x: without_sign(self.of(a).x), y: without_sign(self.of(a).y) })
        &&& forall|a: DVec2|
            {
                let length = self.of(#[trigger] length_of(a));
                length.x == length.y && length.x >= 0 as real && length.x * length.x == self.of(a).dot(self.of(a))
            }
        &&& forall|a: DVec2|
            match #[trigger] unit(a) {
                Some(direction) => self.of(a).points_along(self.of(direction), self.of(length_of(a)).x),
                None => self.of(a).is_zero(),
            }
        &&& forall|a: DVec2|
            !self.of(a).is_zero() ==> self.of(a).points_along(self.of(#[trigger] normalized_of(a)), self.of(length_of(a)).x)
    }

    /// The cosine and the sine of a sum of two angles.
    pub open spec fn turns_add(self, s: real, t: real) -> bool {
        &&& (self.cos)(s + t) == (self.cos)(s) * (self.cos)(t) - (self.sin)(s) * (self.sin)(t)
        &&& (self.sin)(s + t) == (self.sin)(s) * (self.cos)(t) + (self.cos)(s) * (self.sin)(t)
    }

    /// Cosines and sines are exact.
    pub open spec fn has_turns(self) -> bool {
        &&& forall|t: real| (#[trigger] (self.cos)(t)) * (self.cos)(t) + (self.sin)(t) * (self.sin)(t) == 1 as real
        &&& (self.cos)(0 as real) == 1 as real
        &&& (self.sin)(0 as real) == 0 as real
        &&& (self.cos)(self.of(pi()).x) == -1 as real
        &&& (self.sin)(self.of(pi()).x) == 0 as real
        &&& forall|s: real, t: real| #[trigger] self.turns_add(s, t)
        &&& forall|angle: DVec2, direction: DVec2| #[trigger]
            directions_of(angle).contains(direction) ==> self.of(direction) == (Pair {
                x: (self.cos)(self.of(angle).x),
                y: (self.sin)(self.of(angle).x),
            })
        &&& forall|a: DVec2, angle: DVec2| #[trigger]
            arc_cosines_of(a).contains(angle) && -1 as real <= self.of(a).x <= 1 as real ==> {
                &&& self.of(angle).x == self.of(angle).y
                &&& (self.cos)(self.of(angle).x) == self.of(a).x
                &&& (self.sin)(self.of(angle).x / 2 as real) >= 0 as real
            }
        &&& forall|a: DVec2, b: DVec2, angle: DVec2| #[trigger]
            angles_between(a, b).contains(angle) ==> {
                let lengths = self.of(length_of(a)).x * self.of(length_of(b)).x;
                &&& self.of(angle).x == self.of(angle).y
                &&& (self.cos)(self.of(angle).x) * lengths == self.of(a).dot(self.of(b))
                &&& (self.sin)(self.of(angle).x) * lengths == self.of(a).cross(self.of(b))
            }
    }

    /// Transforms are exact.
    pub open spec fn has_frames(self) -> bool {
        &&& forall|t: DAffine2, p: DVec2| self.of(#[trigger] transformed_point(t, p)) == (self.frame)(t).take(self.of(p))
        &&& forall|t: DAffine2, p: DVec2| self.of(#[trigger] transformed_vector(t, p)) == (self.frame)(t).turn(self.of(p))
        &&& forall|a: DAffine2, b: DAffine2| (self.frame)(#[trigger] composition(a, b)) == (self.frame)(a).after((self.frame)(b))
        &&& forall|v: DVec2| (self.frame)(#[trigger] translation_of(v)) == (Frame { origin: self.of(v), ..Frame::still() })
        &&& forall|a: DVec2, b: DVec2, c: DVec2|
            (self.frame)(#[trigger] columns_of(a, b, c)) == (Frame { x_axis: self.of(a), y_axis: self.of(b), origin: self.of(c) })
        &&& forall|t: DAffine2|
            (self.frame)(#[trigger] linear_part_of(t)) == (Frame { origin: Pair::both(0 as real), ..(self.frame)(t) })
        &&& forall|t: DAffine2| self.of(#[trigger] offset_in(t)) == (self.frame)(t).origin
        &&& forall|t: DAffine2| self.is_number(#[trigger] determinant_of(t), (self.frame)(t).determinant())
        &&& forall|t: DAffine2|
            (self.frame)(t).determinant() != 0 as real ==> {
                &&& (self.frame)(t).after((self.frame)(#[trigger] inverse_of(t))) == Frame::still()
                &&& (self.frame)(inverse_of(t)).after((self.frame)(t)) == Frame::still()
            }
    }

    /// Points of paths are exact.
    pub open spec fn has_points(self) -> bool {
        &&& forall|v: DVec2| self.point(#[trigger] point_of(v)) == self.of(v)
        &&& forall|t: DAffine2, p: Point| self.point(#[trigger] affine_image(t, p)) == (self.frame)(t).take(self.point(p))
        &&& forall|a: Point, b: Point, t: DVec2|
            self.point(#[trigger] lerp_of(a, b, t)) == self.point(a).plus(self.point(b).minus(self.point(a)).scaled(self.of(t).x))
        &&& forall|t: DAffine2|
            (self.frame)(t).determinant() != 0 as real ==> (self.frame)(t).after((self.frame)(#[trigger] affine_inverse(t))) == Frame::still()
    }

    /// Numbers are compared with zero, and with one, exactly.
    pub open spec fn has_signs(self) -> bool {
        &&& forall|a: DVec2| #[trigger] is_less(a, zero()) == (self.of(a).x < 0 as real && self.of(a).y < 0 as real)
        &&& forall|a: DVec2| #[trigger] is_less(zero(), a) == (self.of(a).x > 0 as real && self.of(a).y > 0 as real)
        &&& forall|a: DVec2| #[trigger] is_at_most(a, zero()) == (self.of(a).x <= 0 as real && self.of(a).y <= 0 as real)
        &&& forall|a: DVec2| #[trigger] is_at_most(zero(), a) == (self.of(a).x >= 0 as real && self.of(a).y >= 0 as real)
        &&& forall|a: DVec2| #[trigger] is_less(splat_of(1), a) == (self.of(a).x > 1 as real && self.of(a).y > 1 as real)
    }

    /// Whether numbers are compared exactly with all that are read as zero or as one, and each with itself.
    pub open spec fn has_order(self) -> bool {
        &&& forall|a: DVec2| #[trigger] is_at_most(a, a)
        &&& forall|a: DVec2, b: DVec2|
            self.is_number(b, 0 as real) || self.is_number(b, 1 as real) ==> (#[trigger] is_less(a, b) <==> self.of(a).x < self.of(b).x
                && self.of(a).y < self.of(b).y)
        &&& forall|a: DVec2, b: DVec2|
            self.is_number(a, 0 as real) || self.is_number(a, 1 as real) ==> (#[trigger] is_less(a, b) <==> self.of(a).x < self.of(b).x
                && self.of(a).y < self.of(b).y)
    }

    /// Whether each step is exact.
    pub open spec fn wf(self) -> bool {
        &&& self.has_signs()
        &&& self.has_arithmetic()
        &&& self.has_lengths()
        &&& self.has_turns()
        &&& self.has_frames()
        &&& self.has_points()
    }
}

/// The cosine of an angle, by the sine of half of it.
pub proof fn lemma_half_angle(exact: Exact, t: real)
    requires
        exact.has_turns(),
    ensures
        (exact.cos)(t) == 1 as real - 2 as real * ((exact.sin)(t / 2 as real) * (exact.sin)(t / 2 as real)),
{
    let half = t / 2 as real;
    assert(half + half == t);
    assert(exact.turns_add(half, half));
    let c = (exact.cos)(half);
    let s = (exact.sin)(half);
    assert(c * c + s * s == 1 as real);
}

/// A square is not below zero, and above it but for that of zero.
pub proof fn lemma_square(z: real)
    ensures
        z * z >= 0 as real,
        z != 0 as real ==> z * z > 0 as real,
{
    assert(z * z >= 0 as real) by (nonlinear_arith);
    if z != 0 as real {
        assert(z * z > 0 as real) by (nonlinear_arith)
            requires
                z != 0 as real,
        ;
    }
}

/// Equal numbers have equal products with a third.
pub proof fn lemma_times(a: real, b: real, c: real)
    requires
        a == b,
    ensures
        a * c == b * c,
        c * a == c * b,
{
}

/// What is divided by a number and multiplied by it again is as before.
pub proof fn lemma_quotient(a: real, b: real)
    requires
        b != 0 as real,
    ensures
        (a / b) * b == a,
{
    assert((a / b) * b == a) by (nonlinear_arith)
        requires
            b != 0 as real,
    ;
}

/// The product of numbers above zero is above zero, and of one of them and one below is below.
pub proof fn lemma_signs(a: real, b: real)
    requires
        b > 0 as real,
    ensures
        a > 0 as real ==> a * b > 0 as real,
        a < 0 as real ==> a * b < 0 as real,
        a == 0 as real ==> a * b == 0 as real,
{
    if a > 0 as real {
        assert(a * b > 0 as real) by (nonlinear_arith)
            requires
                a > 0 as real,
                b > 0 as real,
        ;
    } else if a < 0 as real {
        assert(a * b < 0 as real) by (nonlinear_arith)
            requires
                a < 0 as real,
                b > 0 as real,
        ;
    } else {
        assert(a * b == 0 as real) by (nonlinear_arith)
            requires
                a == 0 as real,
        ;
    }
}

/// Numbers with the same product with a number that is not zero are the same.
pub proof fn lemma_cancel(a: real, b: real, c: real)
    requires
        c != 0 as real,
        a * c == b * c,
    ensures
        a == b,
{
    assert((a - b) * c == a * c - b * c) by (nonlinear_arith);
    let z = a - b;
    if z != 0 as real {
        assert(z * c != 0 as real) by (nonlinear_arith)
            requires
                z != 0 as real,
                c != 0 as real,
        ;
    }
}

/// A number times a sum.
pub proof fn lemma_spread(a: real, b: real, c: real)
    ensures
        a * (b + c) == a * b + a * c,
        (b + c) * a == b * a + c * a,
{
    assert(a * (b + c) == a * b + a * c) by (nonlinear_arith);
    assert((b + c) * a == b * a + c * a) by (nonlinear_arith);
}

/// A number times a difference, and times an opposite.
pub proof fn lemma_less(a: real, b: real, c: real)
    ensures
        (a - b) * c == a * c - b * c,
        c * (a - b) == c * a - c * b,
        (-a) * c == -(a * c),
        c * (-a) == -(c * a),
{
    assert((a - b) * c == a * c - b * c) by (nonlinear_arith);
    assert(c * (a - b) == c * a - c * b) by (nonlinear_arith);
    assert((-a) * c == -(a * c)) by (nonlinear_arith);
    assert(c * (-a) == -(c * a)) by (nonlinear_arith);
}

/// The order of factors does not matter.
pub proof fn lemma_factors(a: real, b: real, c: real)
    ensures
        (a * b) * c == a * (b * c),
        (a * b) * c == (a * c) * b,
        a * b == b * a,
{
    assert((a * b) * c == a * (b * c)) by (nonlinear_arith);
    assert((a * b) * c == (a * c) * b) by (nonlinear_arith);
    assert(a * b == b * a) by (nonlinear_arith);
}

/// The order of four factors does not matter either.
pub proof fn lemma_four_factors(a: real, b: real, c: real, d: real)
    ensures
        (a * b) * (c * d) == (a * c) * (b * d),
{
    lemma_factors(a, b, c * d);
    lemma_factors(b, c, d);
    lemma_factors(a, c, b * d);
    lemma_factors(c, b * d, d);
}

/// The squares of a sum and a difference, and their product.
pub proof fn lemma_squares(a: real, b: real)
    ensures
        (a + b) * (a + b) == a * a + b * b + 2 as real * (a * b),
        (a - b) * (a - b) == a * a + b * b - 2 as real * (a * b),
        (a - b) * (a + b) == a * a - b * b,
{
    lemma_spread(a + b, a, b);
    lemma_spread(a, a, b);
    lemma_spread(b, a, b);
    lemma_less(a, b, a - b);
    lemma_less(a, b, a);
    lemma_less(a, b, b);
    lemma_less(a, b, a + b);
    lemma_factors(a, b, b);
}

/// A vector that is some times as long, multiplied with itself.
pub proof fn lemma_scaled_dot(p: Pair, n: real)
    ensures
        p.scaled(n).dot(p.scaled(n)) == p.dot(p) * (n * n),
{
    lemma_four_factors(p.x, n, p.x, n);
    lemma_four_factors(p.y, n, p.y, n);
    lemma_spread(n * n, p.x * p.x, p.y * p.y);
}

/// A direction and a length are all there is to a vector.
pub proof fn lemma_direction_is_unique(a: Pair, first: Pair, second: Pair, n: real, m: real)
    requires
        a.points_along(first, n),
        a.points_along(second, m),
    ensures
        first == second,
        n == m,
{
    lemma_scaled_dot(first, n);
    lemma_scaled_dot(second, m);
    lemma_times(first.dot(first), 1 as real, n * n);
    lemma_times(second.dot(second), 1 as real, m * m);
    assert((1 as real) * (n * n) == n * n) by (nonlinear_arith);
    assert((1 as real) * (m * m) == m * m) by (nonlinear_arith);
    assert(n * n == m * m);
    lemma_squares(n, m);
    assert((0 as real) * (n + m) == 0 as real) by (nonlinear_arith);
    lemma_cancel(n - m, 0 as real, n + m);
    lemma_cancel(first.x, second.x, n);
    lemma_cancel(first.y, second.y, n);
}

/// A vector of no length is no vector along a direction.
pub proof fn lemma_not_zero(a: Pair, direction: Pair, length: real)
    requires
        a.points_along(direction, length),
    ensures
        !a.is_zero(),
{
    if a.is_zero() {
        assert((0 as real) * length == 0 as real) by (nonlinear_arith);
        lemma_cancel(direction.x, 0 as real, length);
        lemma_cancel(direction.y, 0 as real, length);
        assert((0 as real) * (0 as real) == 0 as real) by (nonlinear_arith);
    }
}

/// The length of a vector along a direction.
pub proof fn lemma_length(exact: Exact, a: DVec2, direction: Pair, length: real)
    requires
        exact.wf(),
        exact.of(a).points_along(direction, length),
    ensures
        exact.is_number(length_of(a), length),
{
    let found = exact.of(length_of(a)).x;
    lemma_scaled_dot(direction, length);
    lemma_times(direction.dot(direction), 1 as real, length * length);
    assert((1 as real) * (length * length) == length * length) by (nonlinear_arith);
    lemma_squares(found, length);
    assert((0 as real) * (found + length) == 0 as real) by (nonlinear_arith);
    lemma_cancel(found - length, 0 as real, found + length);
}

/// The direction of a vector is the one that it is along.
pub proof fn lemma_unit(exact: Exact, a: DVec2, direction: Pair, length: real)
    requires
        exact.wf(),
        exact.of(a).points_along(direction, length),
    ensures
        unit(a) matches Some(found) && exact.of(found) == direction,
        exact.is_number(length_of(a), length),
{
    lemma_not_zero(exact.of(a), direction, length);
    lemma_length(exact, a, direction, length);
    match unit(a) {
        Some(found) => lemma_direction_is_unique(exact.of(a), direction, exact.of(found), length, exact.of(length_of(a)).x),
        None => {},
    }
}

/// One coordinate of what two frames do to a vector.
proof fn lemma_after_coordinate(a: real, c: real, e: real, f: real, g: real, h: real, x: real, y: real)
    ensures
        (a * e + c * f) * x + (a * g + c * h) * y == a * (e * x + g * y) + c * (f * x + h * y),
{
    lemma_spread(x, a * e, c * f);
    lemma_spread(y, a * g, c * h);
    lemma_spread(a, e * x, g * y);
    lemma_spread(c, f * x, h * y);
    lemma_factors(a, e, x);
    lemma_factors(c, f, x);
    lemma_factors(a, g, y);
    lemma_factors(c, h, y);
}

/// One coordinate of where a frame takes a sum.
proof fn lemma_sum_coordinate(a: real, c: real, u: real, v: real, s: real, t: real)
    ensures
        a * (u + s) + c * (v + t) == (a * u + c * v) + (a * s + c * t),
{
    lemma_spread(a, u, s);
    lemma_spread(c, v, t);
}

/// A frame after another turns a vector as both do.
proof fn lemma_turn_after(outer: Frame, inner: Frame, p: Pair)
    ensures
        outer.after(inner).turn(p) == outer.turn(inner.turn(p)),
{
    reveal(Frame::turn);
    let (a, b, c, d) = (outer.x_axis.x, outer.x_axis.y, outer.y_axis.x, outer.y_axis.y);
    let (e, f, g, h) = (inner.x_axis.x, inner.x_axis.y, inner.y_axis.x, inner.y_axis.y);
    lemma_after_coordinate(a, c, e, f, g, h, p.x, p.y);
    lemma_after_coordinate(b, d, e, f, g, h, p.x, p.y);
}

/// A frame turns a sum of vectors as it does each of them.
pub proof fn lemma_turn_sum(frame: Frame, p: Pair, q: Pair)
    ensures
        frame.turn(p.plus(q)) == frame.turn(p).plus(frame.turn(q)),
{
    reveal(Frame::turn);
    lemma_sum_coordinate(frame.x_axis.x, frame.y_axis.x, p.x, p.y, q.x, q.y);
    lemma_sum_coordinate(frame.x_axis.y, frame.y_axis.y, p.x, p.y, q.x, q.y);
}

/// A frame after another takes a point where both do.
pub proof fn lemma_after(outer: Frame, inner: Frame, p: Pair)
    ensures
        outer.after(inner).take(p) == outer.take(inner.take(p)),
        outer.after(inner).turn(p) == outer.turn(inner.turn(p)),
{
    lemma_turn_after(outer, inner, p);
    lemma_turn_sum(outer, inner.turn(p), inner.origin);
}

/// The frame that stands still takes each point to itself.
pub proof fn lemma_still(p: Pair)
    ensures
        Frame::still().take(p) == p,
        Frame::still().turn(p) == p,
{
    reveal(Frame::turn);
    let (x, y) = (p.x, p.y);
    assert((1 as real) * x + (0 as real) * y == x) by (nonlinear_arith);
    assert((0 as real) * x + (1 as real) * y == y) by (nonlinear_arith);
}

/// A transform that can be taken back takes a point, and a vector, there and back.
pub proof fn lemma_there_and_back(exact: Exact, transform: DAffine2, p: DVec2)
    requires
        exact.wf(),
        (exact.frame)(transform).determinant() != 0 as real,
    ensures
        exact.of(transformed_point(inverse_of(transform), transformed_point(transform, p))) == exact.of(p),
        exact.of(transformed_vector(inverse_of(transform), transformed_vector(transform, p))) == exact.of(p),
        exact.of(transformed_point(transform, transformed_point(inverse_of(transform), p))) == exact.of(p),
        exact.of(transformed_vector(transform, transformed_vector(inverse_of(transform), p))) == exact.of(p),
{
    let there = (exact.frame)(transform);
    let back = (exact.frame)(inverse_of(transform));
    lemma_after(back, there, exact.of(p));
    lemma_after(there, back, exact.of(p));
    lemma_still(exact.of(p));
}

/// A vector points the other way from its opposite.
pub proof fn lemma_opposite(a: Pair, direction: Pair, length: real)
    requires
        a.points_along(direction, length),
    ensures
        a.opposite().points_along(direction.opposite(), length),
{
    let (x, y) = (direction.x, direction.y);
    lemma_less(x, x, length);
    lemma_less(y, y, length);
    lemma_less(x, x, -x);
    lemma_less(x, x, x);
    lemma_less(y, y, -y);
    lemma_less(y, y, y);
}

/// The cosine and the sine of the opposite of an angle.
pub proof fn lemma_opposite_angle(exact: Exact, t: real)
    requires
        exact.has_turns(),
    ensures
        (exact.cos)(-t) == (exact.cos)(t),
        (exact.sin)(-t) == -(exact.sin)(t),
{
    let (c, s) = ((exact.cos)(t), (exact.sin)(t));
    let (d, e) = ((exact.cos)(-t), (exact.sin)(-t));
    assert(t + (-t) == 0 as real);
    assert(exact.turns_add(t, -t));
    let one = c * d - s * e;
    let none = s * d + c * e;
    assert(one == 1 as real && none == 0 as real);
    assert(c * c + s * s == 1 as real);
    lemma_less(c * d, s * e, c);
    lemma_less(c * d, s * e, s);
    lemma_spread(s, s * d, c * e);
    lemma_spread(c, s * d, c * e);
    lemma_factors(c, c, d);
    lemma_factors(s, s, d);
    lemma_factors(c, s, e);
    lemma_factors(s, c, e);
    lemma_factors(s, c, d);
    lemma_factors(c, s, d);
    lemma_factors(s, s, e);
    lemma_factors(c, c, e);
    lemma_spread(d, c * c, s * s);
    lemma_spread(e, c * c, s * s);
    lemma_times(c * c + s * s, 1 as real, d);
    lemma_times(c * c + s * s, 1 as real, e);
    lemma_times(one, 1 as real, c);
    lemma_times(one, 1 as real, s);
    lemma_times(none, 0 as real, c);
    lemma_times(none, 0 as real, s);
}

/// The cosine of what is missing from an angle to half a turn.
pub proof fn lemma_supplement(exact: Exact, t: real)
    requires
        exact.has_turns(),
    ensures
        (exact.cos)(exact.of(pi()).x - t) == -(exact.cos)(t),
{
    let half = exact.of(pi()).x;
    lemma_opposite_angle(exact, t);
    assert(half - t == half + (-t));
    assert(exact.turns_add(half, -t));
    lemma_less(1 as real, 1 as real, (exact.cos)(-t));
    lemma_times((exact.sin)(half), 0 as real, (exact.sin)(-t));
}

/// A quarter of a turn has no cosine.
pub proof fn lemma_quarter_turn(exact: Exact)
    requires
        exact.has_turns(),
    ensures
        (exact.cos)(exact.of(pi()).x / 2 as real) == 0 as real,
{
    let quarter = exact.of(pi()).x / 2 as real;
    let (c, s) = ((exact.cos)(quarter), (exact.sin)(quarter));
    assert(quarter + quarter == exact.of(pi()).x);
    assert(exact.turns_add(quarter, quarter));
    assert(c * c + s * s == 1 as real);
    assert(c * c == 0 as real);
    lemma_square(c);
}

} // verus!
