//! Measures of shapes.
use glam::{DAffine2, DVec2};
use vstd::prelude::*;

use crate::geometry::{
    difference, divide, from_translation, identity, is_less, less, lower, lower_of, minus, mixed_of, number, number_of, plus, product, quotient, splat,
    sum, times, transform_point, transformed_point, units_of, upper, upper_of, zero,
};
use crate::paths::{point_of, PathElement};
use crate::style::PathStyle;

verus! {

/// The box around the boxes of the first shapes, each given by its lowest and its highest corner. Some
/// shapes have no box.
pub open spec fn box_around(boxes: Seq<Option<(DVec2, DVec2)>>, n: nat) -> Option<(DVec2, DVec2)>
    decreases n,
{
    if n == 0 {
        None
    } else {
        match (box_around(boxes, (n - 1) as nat), boxes[n - 1]) {
            (Some(all), Some(own)) => Some((lower_of(all.0, own.0), upper_of(all.1, own.1))),
            (None, own) => own,
            (all, None) => all,
        }
    }
}

/// Whether no coordinate of one vector is above that of the other, as far as that is a number.
pub open spec fn is_below(a: DVec2, b: DVec2) -> bool {
    &&& units_of(b).0 matches Some(y) ==> units_of(a).0 matches Some(x) && x <= y
    &&& units_of(b).1 matches Some(y) ==> units_of(a).1 matches Some(x) && x <= y
}

/// Whether no coordinate of one vector is below that of the other, as far as that is a number.
pub open spec fn is_above(a: DVec2, b: DVec2) -> bool {
    &&& units_of(b).0 matches Some(y) ==> units_of(a).0 matches Some(x) && y <= x
    &&& units_of(b).1 matches Some(y) ==> units_of(a).1 matches Some(x) && y <= x
}

/// Whether a box holds each of the first boxes.
pub open spec fn holds_boxes(all: (DVec2, DVec2), boxes: Seq<Option<(DVec2, DVec2)>>, n: nat) -> bool {
    forall|i: int| 0 <= i < n ==> (#[trigger] boxes[i] matches Some(own) ==> is_below(all.0, own.0) && is_above(all.1, own.1))
}

/// The size of the box around shapes, or zero if none of them has a box.
pub fn dimensions(boxes: &Vec<Option<(DVec2, DVec2)>>) -> (size: DVec2)
    ensures
        size == (match box_around(boxes@, boxes@.len()) {
            Some(all) => difference(all.1, all.0),
            None => zero(),
        }),
        box_around(boxes@, boxes@.len()) matches Some(all) ==> holds_boxes(all, boxes@, boxes@.len()),
        box_around(boxes@, boxes@.len()) is None <==> forall|i: int| 0 <= i < boxes@.len() ==> #[trigger] boxes@[i] is None,
{
    let mut all: Option<(DVec2, DVec2)> = None;
    let mut i: usize = 0;
    while i < boxes.len()
        invariant
            i <= boxes.len(),
            all == box_around(boxes@, i as nat),
            all matches Some(found) ==> holds_boxes(found, boxes@, i as nat),
            all is None <==> forall|k: int| 0 <= k < i ==> #[trigger] boxes@[k] is None,
        decreases boxes.len() - i,
    {
        all = match (all, boxes[i]) {
            (Some(so_far), Some(own)) => Some((lower(so_far.0, own.0), upper(so_far.1, own.1))),
            (None, own) => own,
            (so_far, None) => so_far,
        };
        i += 1;
    }
    match all {
        Some(found) => minus(found.1, found.0),
        None => splat(0),
    }
}

/// Calls `Rect::to_path` for the rectangle between two corners: it goes around from the first corner and
/// closes.
#[verifier::external_body]
fn rectangle(low: DVec2, high: DVec2) -> (path: Vec<PathElement>)
    ensures
        path@ == seq![
            PathElement::MoveTo(point_of(low)),
            PathElement::LineTo(point_of(mixed_of(high, low))),
            PathElement::LineTo(point_of(high)),
            PathElement::LineTo(point_of(mixed_of(low, high))),
            PathElement::ClosePath,
        ],
{
    let path = kurbo::Shape::to_path(&kurbo::Rect::new(low.x, low.y, high.x, high.y), kurbo::DEFAULT_ACCURACY);
    path.iter().map(|element| match element {
        kurbo::PathEl::MoveTo(p) => PathElement::MoveTo(p),
        kurbo::PathEl::LineTo(p) => PathElement::LineTo(p),
        kurbo::PathEl::QuadTo(p1, p2) => PathElement::QuadTo(p1, p2),
        kurbo::PathEl::CurveTo(p1, p2, p3) => PathElement::CurveTo(p1, p2, p3),
        kurbo::PathEl::ClosePath => PathElement::ClosePath,
    }).collect()
}

/// The path around a box.
pub open spec fn box_path(bounds: Option<(DVec2, DVec2)>) -> Seq<PathElement> {
    match bounds {
        Some((low, high)) => seq![
            PathElement::MoveTo(point_of(low)),
            PathElement::LineTo(point_of(mixed_of(high, low))),
            PathElement::LineTo(point_of(high)),
            PathElement::LineTo(point_of(mixed_of(low, high))),
            PathElement::ClosePath,
        ],
        None => Seq::empty(),
    }
}

/// The path around the box of a shape, which is empty if it has no box. It is painted in the style of the
/// shape, whose stroke loses its transform.
pub fn bounding_box(bounds: Option<(DVec2, DVec2)>, style: &mut PathStyle) -> (path: Vec<PathElement>)
    ensures
        path@ == box_path(bounds),
        final(style)@ == old(style)@.with_stroke_transform(identity()),
{
    style.set_stroke_transform(from_translation(splat(0)));
    match bounds {
        Some((low, high)) => rectangle(low, high),
        None => Vec::new(),
    }
}

/// What the weight of a subpath is measured by.
#[derive(Clone, Copy, Debug, PartialEq, Eq, Structural)]
pub enum CentroidType {
    Area,
    Length,
}

/// The center of a subpath, and its area or length in both coordinates.
#[derive(Clone, Copy, Debug)]
pub struct Weighted {
    pub center: DVec2,
    pub weight: DVec2,
}

/// A shape with what its center is found from: its subpaths, as far as they have a center, and its points.
#[derive(Debug)]
pub struct MeasuredShape {
    pub transform: DAffine2,
    pub subpaths: Vec<Option<Weighted>>,
    pub positions: Vec<DVec2>,
}

/// Whether a subpath counts: one that is measured by its area only if that is above zero.
pub open spec fn counts(centroid_type: CentroidType, subpath: Weighted) -> bool {
    centroid_type is Length || is_less(zero(), subpath.weight)
}

/// The sum of the weights, and of the centers multiplied by them.
pub struct Balance {
    pub weight: DVec2,
    pub moment: DVec2,
}

/// What the first subpaths of a shape add.
pub open spec fn balance_within(shape: MeasuredShape, centroid_type: CentroidType, start: Balance, n: nat) -> Balance
    decreases n,
{
    if n == 0 {
        start
    } else {
        let before = balance_within(shape, centroid_type, start, (n - 1) as nat);
        match shape.subpaths@[n - 1] {
            Some(subpath) if counts(centroid_type, subpath) => Balance {
                weight: sum(before.weight, subpath.weight),
                moment: sum(before.moment, product(subpath.weight, transformed_point(shape.transform, subpath.center))),
            },
            _ => before,
        }
    }
}

/// What the subpaths of the first shapes add up to.
pub open spec fn balance(shapes: Seq<MeasuredShape>, centroid_type: CentroidType, n: nat) -> Balance
    decreases n,
{
    if n == 0 {
        Balance { weight: zero(), moment: zero() }
    } else {
        let shape = shapes[n - 1];
        balance_within(shape, centroid_type, balance(shapes, centroid_type, (n - 1) as nat), shape.subpaths@.len())
    }
}

/// The sum of the first points of a shape, after a sum so far.
pub open spec fn points_sum(shape: MeasuredShape, start: DVec2, n: nat) -> DVec2
    decreases n,
{
    if n == 0 {
        start
    } else {
        sum(points_sum(shape, start, (n - 1) as nat), transformed_point(shape.transform, shape.positions@[n - 1]))
    }
}

/// The sum of the points of the first shapes.
pub open spec fn all_points_sum(shapes: Seq<MeasuredShape>, n: nat) -> DVec2
    decreases n,
{
    if n == 0 {
        zero()
    } else {
        let shape = shapes[n - 1];
        points_sum(shape, all_points_sum(shapes, (n - 1) as nat), shape.positions@.len())
    }
}

/// How many points the first shapes have.
pub open spec fn points_count(shapes: Seq<MeasuredShape>, n: nat) -> nat
    decreases n,
{
    if n == 0 {
        0
    } else {
        points_count(shapes, (n - 1) as nat) + shapes[n - 1].positions@.len()
    }
}

/// The center of shapes: the mean of the centers of their subpaths by weight, or of their points if
/// nothing has a weight.
pub open spec fn center_of(shapes: Seq<MeasuredShape>, centroid_type: CentroidType) -> DVec2 {
    let all = balance(shapes, centroid_type, shapes.len());
    let count = points_count(shapes, shapes.len());
    if is_less(zero(), all.weight) {
        quotient(all.moment, all.weight)
    } else if count != 0 {
        quotient(all_points_sum(shapes, shapes.len()), number_of(count as u64))
    } else {
        zero()
    }
}

/// The mean of the points of shapes, or zero without any.
fn mean_of_points(shapes: &Vec<MeasuredShape>) -> (mean: DVec2)
    requires
        points_count(shapes@, shapes@.len()) <= usize::MAX,
    ensures
        mean == (if points_count(shapes@, shapes@.len()) != 0 {
            quotient(all_points_sum(shapes@, shapes@.len()), number_of(points_count(shapes@, shapes@.len()) as u64))
        } else {
            zero()
        }),
{
    let mut total: DVec2 = splat(0);
    let mut count: usize = 0;
    let mut i: usize = 0;
    while i < shapes.len()
        invariant
            i <= shapes.len(),
            points_count(shapes@, shapes@.len()) <= usize::MAX,
            total == all_points_sum(shapes@, i as nat),
            count == points_count(shapes@, i as nat),
        decreases shapes.len() - i,
    {
        let shape: &MeasuredShape = &shapes[i];
        let ghost start = total;
        let mut k: usize = 0;
        while k < shape.positions.len()
            invariant
                k <= shape.positions.len(),
                total == points_sum(*shape, start, k as nat),
            decreases shape.positions.len() - k,
        {
            total = plus(total, transform_point(shape.transform, shape.positions[k]));
            k += 1;
        }
        proof {
            lemma_points_count_grows(shapes@, (i + 1) as nat, shapes@.len());
        }
        count += shape.positions.len();
        i += 1;
    }
    if count != 0 {
        divide(total, number(count as u64))
    } else {
        splat(0)
    }
}

proof fn lemma_points_count_grows(shapes: Seq<MeasuredShape>, n: nat, more: nat)
    requires
        n <= more,
    ensures
        points_count(shapes, n) <= points_count(shapes, more),
    decreases more,
{
    if n < more {
        lemma_points_count_grows(shapes, n, (more - 1) as nat);
    }
}

/// The center of shapes, by the area or the length of their subpaths.
pub fn centroid(shapes: &Vec<MeasuredShape>, centroid_type: CentroidType) -> (center: DVec2)
    requires
        points_count(shapes@, shapes@.len()) <= usize::MAX,
    ensures
        center == center_of(shapes@, centroid_type),
{
    let mut weight: DVec2 = splat(0);
    let mut moment: DVec2 = splat(0);
    let mut i: usize = 0;
    while i < shapes.len()
        invariant
            i <= shapes.len(),
            balance(shapes@, centroid_type, i as nat) == (Balance { weight, moment }),
        decreases shapes.len() - i,
    {
        let shape: &MeasuredShape = &shapes[i];
        let ghost start = Balance { weight, moment };
        let mut k: usize = 0;
        while k < shape.subpaths.len()
            invariant
                k <= shape.subpaths.len(),
                balance_within(*shape, centroid_type, start, k as nat) == (Balance { weight, moment }),
            decreases shape.subpaths.len() - k,
        {
            if let Some(subpath) = shape.subpaths[k] {
                let counted: bool = match centroid_type {
                    CentroidType::Area => less(splat(0), subpath.weight),
                    CentroidType::Length => true,
                };
                if counted {
                    let center: DVec2 = transform_point(shape.transform, subpath.center);
                    weight = plus(weight, subpath.weight);
                    moment = plus(moment, times(subpath.weight, center));
                }
            }
            k += 1;
        }
        i += 1;
    }
    if less(splat(0), weight) {
        divide(moment, weight)
    } else {
        mean_of_points(shapes)
    }
}

/// Whether a point is inside any of several shapes, given for each whether it is inside that one.
pub fn point_inside(inside: &Vec<bool>) -> (result: bool)
    ensures
        result == inside@.contains(true),
{
    let mut i: usize = 0;
    while i < inside.len()
        invariant
            i <= inside.len(),
            forall|k: int| 0 <= k < i ==> !#[trigger] inside@[k],
        decreases inside.len() - i,
    {
        if inside[i] {
            assert(inside@[i as int] == true);
            return true;
        }
        i += 1;
    }
    false
}

/// How many rows there are.
pub fn count_elements<T>(rows: &Vec<T>) -> (count: u64)
    ensures
        count == rows@.len(),
{
    rows.len() as u64
}

} // verus!
