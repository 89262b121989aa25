//! Paths made of lines and curves, and what `kurbo` computes with them.
use glam::{DAffine2, DVec2};
use kurbo::{BezPath, PathEl, PathSeg, Point, QuadBez};
use kurbo::ParamCurve;
use vstd::prelude::*;

use crate::geometry::{difference, length_of, units_of};

verus! {

/// A point of the plane, from `kurbo`.
#[verifier::external_type_specification]
#[verifier::external_body]
pub struct ExPoint(kurbo::Point);

/// A path, from `kurbo`.
#[verifier::external_type_specification]
#[verifier::external_body]
pub struct ExBezPath(kurbo::BezPath);

/// A line or curve of a path, from `kurbo`.
#[verifier::external_type_specification]
#[verifier::external_body]
pub struct ExPathSeg(kurbo::PathSeg);

/// What is drawn next in a path.
#[derive(Clone, Copy, Debug)]
pub enum PathElement {
    MoveTo(Point),
    LineTo(Point),
    QuadTo(Point, Point),
    CurveTo(Point, Point, Point),
    ClosePath,
}

/// A line or curve of a path, with both of its ends.
#[derive(Clone, Copy, Debug)]
pub enum PathSegment {
    Line(Point, Point),
    Quad(Point, Point, Point),
    Cubic(Point, Point, Point, Point),
}

/// The elements of a path.
pub uninterp spec fn elements_of(path: BezPath) -> Seq<PathElement>;

/// Collects elements in a `BezPath`, which holds them as they are.
#[verifier::external_body]
fn to_bez_path(elements: &Vec<PathElement>) -> (path: BezPath)
    requires
        elements@.len() > 0 ==> elements@[0] is MoveTo,
    ensures
        elements_of(path) == elements@,
{
    elements.iter().map(|element| match *element {
        PathElement::MoveTo(p) => PathEl::MoveTo(p),
        PathElement::LineTo(p) => PathEl::LineTo(p),
        PathElement::QuadTo(p1, p2) => PathEl::QuadTo(p1, p2),
        PathElement::CurveTo(p1, p2, p3) => PathEl::CurveTo(p1, p2, p3),
        PathElement::ClosePath => PathEl::ClosePath,
    }).collect()
}

/// Whether two points have the same numbers as their coordinates. What is not a number is not the same as anything.
pub open spec fn are_same(a: Point, b: Point) -> bool {
    let units = units_of(position_of(a));
    units.0 is Some && units.1 is Some && units == units_of(position_of(b))
}

/// Calls the `==` of `Point`, which compares the numbers that the coordinates are.
#[verifier::external_body]
fn same(a: Point, b: Point) -> (result: bool)
    ensures
        result == are_same(a, b),
{
    a == b
}

/// Where the pen is, and where its subpath began.
pub struct Pen {
    pub start: Point,
    pub last: Point,
}

/// Where the pen is after the elements, the first of which moves it. Closing a subpath at its start leaves the pen
/// where it is.
pub open spec fn pen_after(elements: Seq<PathElement>) -> Pen
    decreases elements.len(),
{
    if elements.len() == 0 {
        arbitrary()
    } else {
        let before = pen_after(elements.drop_last());
        match elements.last() {
            PathElement::MoveTo(p) => Pen { start: p, last: p },
            PathElement::LineTo(p) => Pen { last: p, ..before },
            PathElement::QuadTo(_, p) => Pen { last: p, ..before },
            PathElement::CurveTo(_, _, p) => Pen { last: p, ..before },
            PathElement::ClosePath => if are_same(before.last, before.start) {
                before
            } else {
                Pen { last: before.start, ..before }
            },
        }
    }
}

/// The segments that an element draws from where the pen is: closing a path draws a line unless the
/// pen is back at the start.
pub open spec fn drawn(pen: Pen, element: PathElement) -> Seq<PathSegment> {
    match element {
        PathElement::MoveTo(_) => Seq::empty(),
        PathElement::LineTo(p) => seq![PathSegment::Line(pen.last, p)],
        PathElement::QuadTo(p1, p2) => seq![PathSegment::Quad(pen.last, p1, p2)],
        PathElement::CurveTo(p1, p2, p3) => seq![PathSegment::Cubic(pen.last, p1, p2, p3)],
        PathElement::ClosePath => if are_same(pen.last, pen.start) {
            Seq::empty()
        } else {
            seq![PathSegment::Line(pen.last, pen.start)]
        },
    }
}

/// The segments of a path.
pub open spec fn path_segments(elements: Seq<PathElement>) -> Seq<PathSegment>
    decreases elements.len(),
{
    if elements.len() == 0 {
        Seq::empty()
    } else {
        path_segments(elements.drop_last()) + drawn(pen_after(elements.drop_last()), elements.last())
    }
}

/// Calls `BezPath::segments`: each element draws its segment from where the pen is.
#[verifier::external_body]
fn bez_path_segments(path: &BezPath) -> (segments: Vec<PathSegment>)
    requires
        elements_of(*path).len() > 0 ==> elements_of(*path)[0] is MoveTo,
    ensures
        segments@ == path_segments(elements_of(*path)),
{
    path.segments().map(|segment| match segment {
        PathSeg::Line(l) => PathSegment::Line(l.p0, l.p1),
        PathSeg::Quad(q) => PathSegment::Quad(q.p0, q.p1, q.p2),
        PathSeg::Cubic(c) => PathSegment::Cubic(c.p0, c.p1, c.p2, c.p3),
    }).collect()
}

/// The segments of a path.
pub fn segments(elements: &Vec<PathElement>) -> (segments: Vec<PathSegment>)
    requires
        elements@.len() > 0 ==> elements@[0] is MoveTo,
    ensures
        segments@ == path_segments(elements@),
{
    bez_path_segments(&to_bez_path(elements))
}

/// Where the pen is after an element that does not close the path.
pub open spec fn spec_end_point(element: PathElement) -> Option<Point> {
    match element {
        PathElement::MoveTo(p) => Some(p),
        PathElement::LineTo(p) => Some(p),
        PathElement::QuadTo(_, p) => Some(p),
        PathElement::CurveTo(_, _, p) => Some(p),
        PathElement::ClosePath => None,
    }
}

impl PathElement {
    /// Where the pen is after this element, unless it closes the path.
    pub fn end_point(self) -> (point: Option<Point>)
        ensures
            point == spec_end_point(self),
    {
        match self {
            PathElement::MoveTo(p) => Some(p),
            PathElement::LineTo(p) => Some(p),
            PathElement::QuadTo(_, p) => Some(p),
            PathElement::CurveTo(_, _, p) => Some(p),
            PathElement::ClosePath => None,
        }
    }

    /// Whether this element draws a segment of its own.
    pub open spec fn draws(self) -> bool {
        self is LineTo || self is QuadTo || self is CurveTo
    }
}

impl PathSegment {
    pub open spec fn spec_start(self) -> Point {
        match self {
            PathSegment::Line(p, _) => p,
            PathSegment::Quad(p, _, _) => p,
            PathSegment::Cubic(p, _, _, _) => p,
        }
    }

    #[verifier::when_used_as_spec(spec_start)]
    pub fn start(self) -> (point: Point)
        ensures
            point == self.spec_start(),
    {
        match self {
            PathSegment::Line(p, _) => p,
            PathSegment::Quad(p, _, _) => p,
            PathSegment::Cubic(p, _, _, _) => p,
        }
    }

    pub open spec fn spec_end(self) -> Point {
        match self {
            PathSegment::Line(_, p) => p,
            PathSegment::Quad(_, _, p) => p,
            PathSegment::Cubic(_, _, _, p) => p,
        }
    }

    #[verifier::when_used_as_spec(spec_end)]
    pub fn end(self) -> (point: Point)
        ensures
            point == self.spec_end(),
    {
        match self {
            PathSegment::Line(_, p) => p,
            PathSegment::Quad(_, _, p) => p,
            PathSegment::Cubic(_, _, _, p) => p,
        }
    }

    pub open spec fn spec_as_element(self) -> PathElement {
        match self {
            PathSegment::Line(_, p) => PathElement::LineTo(p),
            PathSegment::Quad(_, p1, p2) => PathElement::QuadTo(p1, p2),
            PathSegment::Cubic(_, p1, p2, p3) => PathElement::CurveTo(p1, p2, p3),
        }
    }

    /// The element that draws this segment.
    #[verifier::when_used_as_spec(spec_as_element)]
    pub fn as_element(self) -> (element: PathElement)
        ensures
            element == self.spec_as_element(),
    {
        match self {
            PathSegment::Line(_, p) => PathElement::LineTo(p),
            PathSegment::Quad(_, p1, p2) => PathElement::QuadTo(p1, p2),
            PathSegment::Cubic(_, p1, p2, p3) => PathElement::CurveTo(p1, p2, p3),
        }
    }
}

/// The segment that ends at the element with the index.
pub open spec fn segment_at(elements: Seq<PathElement>, index: int) -> Option<PathSegment> {
    if index <= 0 || index >= elements.len() || elements[index - 1] is ClosePath {
        None
    } else {
        let last = spec_end_point(elements[index - 1])->0;
        match elements[index] {
            PathElement::MoveTo(_) => None,
            PathElement::LineTo(p) => Some(PathSegment::Line(last, p)),
            PathElement::QuadTo(p1, p2) => Some(PathSegment::Quad(last, p1, p2)),
            PathElement::CurveTo(p1, p2, p3) => Some(PathSegment::Cubic(last, p1, p2, p3)),
            PathElement::ClosePath => match other_start(elements.take(index), last) {
                Some(start) => Some(PathSegment::Line(last, start)),
                None => None,
            },
        }
    }
}

/// The last start of a subpath that is not at the point.
pub open spec fn other_start(elements: Seq<PathElement>, point: Point) -> Option<Point>
    decreases elements.len(),
{
    if elements.len() == 0 {
        None
    } else {
        match elements.last() {
            PathElement::MoveTo(start) => if are_same(point, start) {
                other_start(elements.drop_last(), point)
            } else {
                Some(start)
            },
            _ => other_start(elements.drop_last(), point),
        }
    }
}

/// The last start of a subpath, among the first elements, that is not at the point.
fn find_other_start(elements: &Vec<PathElement>, count: usize, point: Point) -> (start: Option<Point>)
    requires
        count <= elements@.len(),
    ensures
        start == other_start(elements@.take(count as int), point),
{
    let mut i: usize = count;
    while i > 0
        invariant
            i <= count <= elements@.len(),
            other_start(elements@.take(count as int), point) == other_start(elements@.take(i as int), point),
        decreases i,
    {
        i -= 1;
        proof {
            assert(elements@.take(i + 1).drop_last() == elements@.take(i as int));
            assert(elements@.take(i + 1).last() == elements@[i as int]);
        }
        if let PathElement::MoveTo(start) = elements[i] {
            if !same(point, start) {
                return Some(start);
            }
        }
    }
    None
}

/// The segment that ends at the element with the index.
pub fn get_seg(elements: &Vec<PathElement>, index: usize) -> (segment: Option<PathSegment>)
    ensures
        segment == segment_at(elements@, index as int),
{
    if index == 0 || index >= elements.len() {
        return None;
    }
    let last: Point = match elements[index - 1].end_point() {
        Some(last) => last,
        None => return None,
    };
    match elements[index] {
        PathElement::MoveTo(_) => None,
        PathElement::LineTo(p) => Some(PathSegment::Line(last, p)),
        PathElement::QuadTo(p1, p2) => Some(PathSegment::Quad(last, p1, p2)),
        PathElement::CurveTo(p1, p2, p3) => Some(PathSegment::Cubic(last, p1, p2, p3)),
        PathElement::ClosePath => match find_other_start(elements, index, last) {
            Some(start) => Some(PathSegment::Line(last, start)),
            None => None,
        },
    }
}

/// A segment as `kurbo` has it.
pub uninterp spec fn path_seg_of(segment: PathSegment) -> PathSeg;

/// A segment of `kurbo` as a segment of this library.
pub uninterp spec fn segment_of(segment: PathSeg) -> PathSegment;

/// Makes a `PathSeg` of the same points.
#[verifier::external_body]
fn to_path_seg(segment: PathSegment) -> (result: PathSeg)
    ensures
        result == path_seg_of(segment),
        segment_of(result) == segment,
{
    match segment {
        PathSegment::Line(p0, p1) => PathSeg::Line(kurbo::Line::new(p0, p1)),
        PathSegment::Quad(p0, p1, p2) => PathSeg::Quad(QuadBez::new(p0, p1, p2)),
        PathSegment::Cubic(p0, p1, p2, p3) => PathSeg::Cubic(kurbo::CubicBez::new(p0, p1, p2, p3)),
    }
}

/// Takes the points out of a `PathSeg`.
#[verifier::external_body]
fn from_path_seg(segment: PathSeg) -> (result: PathSegment)
    ensures
        result == segment_of(segment),
{
    match segment {
        PathSeg::Line(l) => PathSegment::Line(l.p0, l.p1),
        PathSeg::Quad(q) => PathSegment::Quad(q.p0, q.p1, q.p2),
        PathSeg::Cubic(c) => PathSegment::Cubic(c.p0, c.p1, c.p2, c.p3),
    }
}

/// What `PathSeg::subdivide` computes.
pub uninterp spec fn subdivision_of(segment: PathSeg) -> (PathSeg, PathSeg);

/// Calls `PathSeg::subdivide`. The result is named: it depends on the segment alone.
#[verifier::external_body]
fn subdivide_path_seg(segment: PathSeg) -> (halves: (PathSeg, PathSeg))
    ensures
        halves == subdivision_of(segment),
{
    segment.subdivide()
}

/// The two halves of a segment.
pub open spec fn halves_of(segment: PathSegment) -> (PathSegment, PathSegment) {
    let halves = subdivision_of(path_seg_of(segment));
    (segment_of(halves.0), segment_of(halves.1))
}

/// The two halves of a segment.
pub fn subdivide(segment: PathSegment) -> (halves: (PathSegment, PathSegment))
    ensures
        halves == halves_of(segment),
{
    let halves: (PathSeg, PathSeg) = subdivide_path_seg(to_path_seg(segment));
    (from_path_seg(halves.0), from_path_seg(halves.1))
}

/// What `QuadBez::raise` computes: the inner control points of the same curve as a cubic one.
pub uninterp spec fn raised_handles(p0: Point, p1: Point, p2: Point) -> (Point, Point);

/// Calls `QuadBez::raise` and takes the two inner control points. The result is named: it depends on
/// the three points alone.
#[verifier::external_body]
fn raise(p0: Point, p1: Point, p2: Point) -> (handles: (Point, Point))
    ensures
        handles == raised_handles(p0, p1, p2),
{
    let cubic = QuadBez::new(p0, p1, p2).raise();
    (cubic.p1, cubic.p2)
}

/// The control points of a segment as a cubic curve.
pub open spec fn cubic_of(segment: PathSegment) -> (Point, Point, Point, Point) {
    match segment {
        PathSegment::Line(p0, p1) => (p0, p0, p1, p1),
        PathSegment::Quad(p0, p1, p2) => {
            let handles = raised_handles(p0, p1, p2);
            (p0, handles.0, handles.1, p2)
        },
        PathSegment::Cubic(p0, p1, p2, p3) => (p0, p1, p2, p3),
    }
}

/// The control points of a segment as a cubic curve.
pub fn to_cubic(segment: PathSegment) -> (cubic: (Point, Point, Point, Point))
    ensures
        cubic == cubic_of(segment),
{
    match segment {
        PathSegment::Line(p0, p1) => (p0, p0, p1, p1),
        PathSegment::Quad(p0, p1, p2) => {
            let handles: (Point, Point) = raise(p0, p1, p2);
            (p0, handles.0, handles.1, p2)
        },
        PathSegment::Cubic(p0, p1, p2, p3) => (p0, p1, p2, p3),
    }
}

/// What `Point::lerp` computes for the number in the first coordinate of `t`.
pub uninterp spec fn lerp_of(a: Point, b: Point, t: DVec2) -> Point;

/// Calls `Point::lerp` with the number that `t` holds in both coordinates. The result is named: it
/// depends on the two points and the number alone.
#[verifier::external_body]
pub(crate) fn lerp(a: Point, b: Point, t: DVec2) -> (result: Point)
    ensures
        result == lerp_of(a, b, t),
{
    a.lerp(b, t.x)
}

/// What the product of an `Affine` and a `Point` is.
pub uninterp spec fn affine_image(transform: DAffine2, point: Point) -> Point;

/// Calls the `*` of `Affine` and `Point`, for the same transform. The result is named: it depends on
/// the transform and the point alone.
#[verifier::external_body]
fn apply(transform: DAffine2, point: Point) -> (result: Point)
    ensures
        result == affine_image(transform, point),
{
    kurbo::Affine::new(transform.to_cols_array()) * point
}

/// An element with each of its points changed.
pub open spec fn map_points(element: PathElement, change: spec_fn(Point) -> Point) -> PathElement {
    match element {
        PathElement::MoveTo(p) => PathElement::MoveTo(change(p)),
        PathElement::LineTo(p) => PathElement::LineTo(change(p)),
        PathElement::QuadTo(p1, p2) => PathElement::QuadTo(change(p1), change(p2)),
        PathElement::CurveTo(p1, p2, p3) => PathElement::CurveTo(change(p1), change(p2), change(p3)),
        PathElement::ClosePath => PathElement::ClosePath,
    }
}

/// A path with each of its points changed.
pub open spec fn map_path(elements: Seq<PathElement>, change: spec_fn(Point) -> Point) -> Seq<PathElement> {
    elements.map_values(|element: PathElement| map_points(element, change))
}

pub open spec fn transforming(transform: DAffine2) -> spec_fn(Point) -> Point {
    |point: Point| affine_image(transform, point)
}

/// The path under the transform.
pub fn apply_affine(elements: &Vec<PathElement>, transform: DAffine2) -> (result: Vec<PathElement>)
    ensures
        result@ == map_path(elements@, transforming(transform)),
{
    let mut result: Vec<PathElement> = Vec::new();
    let mut i: usize = 0;
    while i < elements.len()
        invariant
            i <= elements.len(),
            result@ == map_path(elements@, transforming(transform)).take(i as int),
        decreases elements.len() - i,
    {
        let element: PathElement = match elements[i] {
            PathElement::MoveTo(p) => PathElement::MoveTo(apply(transform, p)),
            PathElement::LineTo(p) => PathElement::LineTo(apply(transform, p)),
            PathElement::QuadTo(p1, p2) => PathElement::QuadTo(apply(transform, p1), apply(transform, p2)),
            PathElement::CurveTo(p1, p2, p3) => PathElement::CurveTo(
                apply(transform, p1),
                apply(transform, p2),
                apply(transform, p3),
            ),
            PathElement::ClosePath => PathElement::ClosePath,
        };
        result.push(element);
        i += 1;
    }
    proof {
        let all = map_path(elements@, transforming(transform));
        assert(all.take(i as int) == all);
    }
    result
}

/// What `Affine::inverse` computes, for the same transform.
pub uninterp spec fn affine_inverse(transform: DAffine2) -> DAffine2;

/// Calls `Affine::inverse`, for the same transform. The result is named: it depends on the transform
/// alone.
#[verifier::external_body]
fn invert(transform: DAffine2) -> (result: DAffine2)
    ensures
        result == affine_inverse(transform),
{
    DAffine2::from_cols_array(&kurbo::Affine::new(transform.to_cols_array()).inverse().as_coeffs())
}

/// The path under the inverse of the transform.
pub fn apply_inverse(elements: &Vec<PathElement>, transform: DAffine2) -> (result: Vec<PathElement>)
    ensures
        result@ == map_path(elements@, transforming(affine_inverse(transform))),
{
    apply_affine(elements, invert(transform))
}

/// A vector as a point.
pub uninterp spec fn point_of(position: DVec2) -> Point;

/// Makes a `Point` of the same coordinates.
#[verifier::external_body]
pub(crate) fn to_point(position: DVec2) -> (point: Point)
    ensures
        point == point_of(position),
{
    Point::new(position.x, position.y)
}

/// A point as a vector.
pub uninterp spec fn position_of(point: Point) -> DVec2;

/// Makes a `DVec2` of the coordinates of a `Point`.
#[verifier::external_body]
pub(crate) fn to_position(point: Point) -> (position: DVec2)
    ensures
        position == position_of(point),
{
    DVec2::new(point.x, point.y)
}

/// What `PathSeg::subsegment` computes for the numbers in the first coordinates.
pub uninterp spec fn subsegment_of(segment: PathSeg, from: DVec2, to: DVec2) -> PathSeg;

/// Calls `PathSeg::subsegment` with the numbers that the vectors hold in both coordinates. The result is
/// named: it depends on the segment and the numbers alone.
#[verifier::external_body]
fn subsegment(segment: PathSeg, from: DVec2, to: DVec2) -> (result: PathSeg)
    ensures
        result == subsegment_of(segment, from, to),
{
    segment.subsegment(from.x..to.x)
}

impl PathSegment {
    pub open spec fn spec_reverse(self) -> PathSegment {
        match self {
            PathSegment::Line(p0, p1) => PathSegment::Line(p1, p0),
            PathSegment::Quad(p0, p1, p2) => PathSegment::Quad(p2, p1, p0),
            PathSegment::Cubic(p0, p1, p2, p3) => PathSegment::Cubic(p3, p2, p1, p0),
        }
    }

    /// The segment from its end to its start.
    #[verifier::when_used_as_spec(spec_reverse)]
    pub fn reverse(self) -> (reversed: PathSegment)
        ensures
            reversed == self.spec_reverse(),
    {
        match self {
            PathSegment::Line(p0, p1) => PathSegment::Line(p1, p0),
            PathSegment::Quad(p0, p1, p2) => PathSegment::Quad(p2, p1, p0),
            PathSegment::Cubic(p0, p1, p2, p3) => PathSegment::Cubic(p3, p2, p1, p0),
        }
    }

    /// The part of the segment from one place to another.
    pub open spec fn spec_part(self, from: DVec2, to: DVec2) -> PathSegment {
        segment_of(subsegment_of(path_seg_of(self), from, to))
    }

    /// The part of the segment from one place to another.
    pub fn part(self, from: DVec2, to: DVec2) -> (result: PathSegment)
        ensures
            result == self.spec_part(from, to),
    {
        from_path_seg(subsegment(to_path_seg(self), from, to))
    }

    /// The segment under a transform.
    pub open spec fn image(self, transform: DAffine2) -> PathSegment {
        match self {
            PathSegment::Line(p0, p1) => PathSegment::Line(affine_image(transform, p0), affine_image(transform, p1)),
            PathSegment::Quad(p0, p1, p2) => PathSegment::Quad(
                affine_image(transform, p0),
                affine_image(transform, p1),
                affine_image(transform, p2),
            ),
            PathSegment::Cubic(p0, p1, p2, p3) => PathSegment::Cubic(
                affine_image(transform, p0),
                affine_image(transform, p1),
                affine_image(transform, p2),
                affine_image(transform, p3),
            ),
        }
    }

    /// The segment under a transform.
    pub fn transformed(self, transform: DAffine2) -> (result: PathSegment)
        ensures
            result == self.image(transform),
    {
        match self {
            PathSegment::Line(p0, p1) => PathSegment::Line(apply(transform, p0), apply(transform, p1)),
            PathSegment::Quad(p0, p1, p2) => PathSegment::Quad(apply(transform, p0), apply(transform, p1), apply(transform, p2)),
            PathSegment::Cubic(p0, p1, p2, p3) => PathSegment::Cubic(
                apply(transform, p0),
                apply(transform, p1),
                apply(transform, p2),
                apply(transform, p3),
            ),
        }
    }
}

/// Reversing a segment swaps its ends, and reversing it twice restores it.
pub proof fn reversing_twice_restores(segment: PathSegment)
    ensures
        segment.reverse().reverse() == segment,
        segment.reverse().start() == segment.end(),
        segment.reverse().end() == segment.start(),
{
}

/// All that `PathSeg::perimeter` may give for a segment with the default accuracy, in both coordinates, on one
/// platform or another.
pub uninterp spec fn perimeters_of(segment: PathSeg) -> Set<DVec2>;

/// Calls `PathSeg::perimeter` with the default accuracy and gives the length in both coordinates. That of a line
/// is the length of the vector between its ends. That of a curve is only said to be one of those that may be given
/// for the curve: a logarithm goes into it for a quadratic one, whose last digits differ from one platform to
/// another.
#[verifier::external_body]
fn path_seg_perimeter(segment: PathSeg) -> (length: DVec2)
    ensures
        perimeters_of(segment).contains(length),
        segment_of(segment) matches PathSegment::Line(p0, p1) ==> length == length_of(difference(position_of(p1), position_of(p0))),
{
    DVec2::splat(kurbo::Shape::perimeter(&segment, kurbo::DEFAULT_ACCURACY))
}

/// Whether a number, in both coordinates, may be the length of a segment. For a line it is the distance of its
/// ends.
pub open spec fn is_perimeter(segment: PathSegment, length: DVec2) -> bool {
    &&& perimeters_of(path_seg_of(segment)).contains(length)
    &&& segment matches PathSegment::Line(p0, p1) ==> length == length_of(difference(position_of(p1), position_of(p0)))
}

/// The length of a segment, in both coordinates.
pub(crate) fn perimeter(segment: PathSegment) -> (length: DVec2)
    ensures
        is_perimeter(segment, length),
{
    path_seg_perimeter(to_path_seg(segment))
}

/// What `PathSeg::eval` computes for the number in the first coordinate.
pub uninterp spec fn evaluation_of(segment: PathSeg, t: DVec2) -> Point;

/// Calls `PathSeg::eval` with the number that the vector holds in both coordinates. The result is named: it depends on
/// the segment and the number alone.
#[verifier::external_body]
fn evaluate(segment: PathSeg, t: DVec2) -> (point: Point)
    ensures
        point == evaluation_of(segment, t),
{
    segment.eval(t.x)
}

/// Calls `Point::distance` and gives the distance in both coordinates: the length of the vector from the one point to
/// the other.
#[verifier::external_body]
pub(crate) fn distance(a: Point, b: Point) -> (result: DVec2)
    ensures
        result == length_of(difference(position_of(a), position_of(b))),
{
    DVec2::splat(a.distance(b))
}

/// What `Vec2::normalize` computes.
pub uninterp spec fn normalized_of(a: DVec2) -> DVec2;

/// Calls `Vec2::normalize`. The result is named: it depends on the vector alone.
#[verifier::external_body]
pub(crate) fn normalize(a: DVec2) -> (result: DVec2)
    ensures
        result == normalized_of(a),
{
    let unit = kurbo::Vec2::new(a.x, a.y).normalize();
    DVec2::new(unit.x, unit.y)
}

/// What `Vec2::dot` computes, in both coordinates.
pub uninterp spec fn scalar_product_of(a: DVec2, b: DVec2) -> DVec2;

/// Calls `Vec2::dot` and gives the number in both coordinates. The result is named: it depends on the two vectors
/// alone.
#[verifier::external_body]
pub(crate) fn scalar_product(a: DVec2, b: DVec2) -> (result: DVec2)
    ensures
        result == scalar_product_of(a, b),
{
    DVec2::splat(kurbo::Vec2::new(a.x, a.y).dot(kurbo::Vec2::new(b.x, b.y)))
}

impl PathSegment {
    /// The point of the segment at a parameter.
    pub open spec fn point_at(self, t: DVec2) -> Point {
        evaluation_of(path_seg_of(self), t)
    }

    /// The point of the segment at a parameter.
    pub(crate) fn eval(self, t: DVec2) -> (point: Point)
        ensures
            point == self.point_at(t),
    {
        evaluate(to_path_seg(self), t)
    }
}

/// What `BezPath::bounding_box` computes for a path of the elements: the corners with the smallest and with the largest
/// coordinates.
pub uninterp spec fn box_of(elements: Seq<PathElement>) -> (DVec2, DVec2);

/// Calls `BezPath::bounding_box` and gives the two corners. The result is named: it depends on the elements of the path
/// alone.
#[verifier::external_body]
fn bez_path_bounding_box(path: &BezPath) -> (corners: (DVec2, DVec2))
    requires
        elements_of(*path).len() > 0 ==> elements_of(*path)[0] is MoveTo,
    ensures
        corners == box_of(elements_of(*path)),
{
    let found = kurbo::Shape::bounding_box(path);
    (DVec2::new(found.x0, found.y0), DVec2::new(found.x1, found.y1))
}

/// The box around a path: the corners with the smallest and with the largest coordinates.
pub fn box_around_path(elements: &Vec<PathElement>) -> (corners: (DVec2, DVec2))
    requires
        elements@.len() > 0 ==> elements@[0] is MoveTo,
    ensures
        corners == box_of(elements@),
{
    bez_path_bounding_box(&to_bez_path(elements))
}

/// What `BezPath::area` computes for a path of the elements, in both coordinates.
pub uninterp spec fn area_of(elements: Seq<PathElement>) -> DVec2;

/// Calls `BezPath::area`. The result is named: it depends on the elements of the path alone.
#[verifier::external_body]
fn bez_path_area(path: &BezPath) -> (area: DVec2)
    requires
        elements_of(*path).len() > 0 ==> elements_of(*path)[0] is MoveTo,
    ensures
        area == area_of(elements_of(*path)),
{
    DVec2::splat(kurbo::Shape::area(path))
}

/// The signed area within a path, in both coordinates.
pub fn area_within(elements: &Vec<PathElement>) -> (area: DVec2)
    requires
        elements@.len() > 0 ==> elements@[0] is MoveTo,
    ensures
        area == area_of(elements@),
{
    bez_path_area(&to_bez_path(elements))
}

} // verus!
