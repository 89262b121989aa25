//! Warping a shape into a quadrilateral.
use glam::{DAffine2, DVec2};
use vstd::prelude::*;

use crate::geometry::{
    difference, divide, from_translation, identity, lower, lower_of, minus, mixed, mixed_of, plus, product, quotient, splat, splat_of, sum,
    times, transform_point, transformed_point, upper, upper_of, x, x_of, y, y_of, zero,
};
use crate::style::PathStyle;
use crate::vector_data::{AnchorPoint, BezierHandles, Segment, VectorData, VectorGraph};

verus! {

/// The corners of a quadrilateral: top left, top right, bottom right and bottom left.
#[derive(Clone, Copy, Debug)]
pub struct Quad {
    pub top_left: DVec2,
    pub top_right: DVec2,
    pub bottom_right: DVec2,
    pub bottom_left: DVec2,
}

/// What is left of one.
pub open spec fn rest_of(a: DVec2) -> DVec2 {
    difference(splat_of(1), a)
}

/// The point of the quadrilateral at the coordinates, which run from zero to one.
pub open spec fn bilinear(t: DVec2, quad: Quad) -> DVec2 {
    let tx = x_of(t);
    let ty = y_of(t);
    sum(
        sum(
            sum(
                product(product(quad.top_left, rest_of(tx)), rest_of(ty)),
                product(product(quad.top_right, tx), rest_of(ty)),
            ),
            product(product(quad.bottom_right, tx), ty),
        ),
        product(product(quad.bottom_left, rest_of(tx)), ty),
    )
}

/// Interpolates within a quadrilateral using normalized coordinates, from zero to one.
pub fn bilinear_interpolate(t: DVec2, quad: Quad) -> (point: DVec2)
    ensures
        point == bilinear(t, quad),
{
    let tx: DVec2 = x(t);
    let ty: DVec2 = y(t);
    let rest_x: DVec2 = minus(splat(1), tx);
    let rest_y: DVec2 = minus(splat(1), ty);
    let top_left: DVec2 = times(times(quad.top_left, rest_x), rest_y);
    let top_right: DVec2 = times(times(quad.top_right, tx), rest_y);
    let bottom_right: DVec2 = times(times(quad.bottom_right, tx), ty);
    let bottom_left: DVec2 = times(times(quad.bottom_left, rest_x), ty);
    plus(plus(plus(top_left, top_right), bottom_right), bottom_left)
}

/// The corners that the shape is warped to: the first four points of the target, or where there are
/// fewer, those of the box around the shape.
pub open spec fn warp_corners(target: Seq<DVec2>, target_transform: DAffine2, bounds: (DVec2, DVec2)) -> Quad {
    if target.len() >= 4 {
        Quad {
            top_left: transformed_point(target_transform, target[0]),
            top_right: transformed_point(target_transform, target[1]),
            bottom_right: transformed_point(target_transform, target[2]),
            bottom_left: transformed_point(target_transform, target[3]),
        }
    } else {
        Quad {
            top_left: bounds.0,
            top_right: mixed_of(bounds.1, bounds.0),
            bottom_right: bounds.1,
            bottom_left: mixed_of(bounds.0, bounds.1),
        }
    }
}

/// Where a position of the shape goes.
pub open spec fn warp_position(transform: DAffine2, bounds: (DVec2, DVec2), quad: Quad) -> spec_fn(DVec2) -> DVec2 {
    |position: DVec2|
        {
            let world = transformed_point(transform, position);
            let t = quotient(difference(world, bounds.0), difference(bounds.1, bounds.0));
            bilinear(lower_of(upper_of(t, zero()), splat_of(1)), quad)
        }
}

/// Where the handles of a segment go.
pub open spec fn map_handles(handles: BezierHandles, change: spec_fn(DVec2) -> DVec2) -> BezierHandles {
    match handles {
        BezierHandles::Linear => BezierHandles::Linear,
        BezierHandles::Quadratic { handle } => BezierHandles::Quadratic { handle: change(handle) },
        BezierHandles::Cubic { handle_start, handle_end } => BezierHandles::Cubic {
            handle_start: change(handle_start),
            handle_end: change(handle_end),
        },
    }
}

/// A shape whose positions have changed.
pub open spec fn map_positions(graph: VectorGraph, change: spec_fn(DVec2) -> DVec2) -> VectorGraph {
    VectorGraph {
        points: graph.points.map_values(
            |point: AnchorPoint|
                AnchorPoint { id: point.id, position: change(point.position) },
        ),
        segments: graph.segments.map_values(
            |segment: Segment|
                Segment { handles: map_handles(segment.handles, change), ..segment },
        ),
        ..graph
    }
}

/// The box around the shape, or the unit square if there is none.
pub open spec fn warp_bounds(bounds: Option<(DVec2, DVec2)>) -> (DVec2, DVec2) {
    match bounds {
        Some(found) => found,
        None => (zero(), splat_of(1)),
    }
}

/// Where a position of the shape goes.
fn compute_warp(position: DVec2, transform: DAffine2, bounds: (DVec2, DVec2), quad: Quad) -> (result: DVec2)
    ensures
        result == warp_position(transform, bounds, quad)(position),
{
    let world: DVec2 = transform_point(transform, position);
    let t: DVec2 = divide(minus(world, bounds.0), minus(bounds.1, bounds.0));
    bilinear_interpolate(lower(upper(t, splat(0)), splat(1)), quad)
}

/// The shape that a table is warped into: the positions of its points, and its transform.
#[derive(Debug)]
pub struct WarpTarget {
    pub positions: Vec<DVec2>,
    pub transform: DAffine2,
}

/// A shape whose box has been warped to fill a target.
pub open spec fn warped(graph: VectorGraph, transform: DAffine2, bounds: Option<(DVec2, DVec2)>, target: WarpTarget) -> VectorGraph {
    let area = warp_bounds(bounds);
    map_positions(graph, warp_position(transform, area, warp_corners(target.positions@, target.transform, area)))
}

/// Warps a shape so that the box around it fills the quadrilateral of the target's first four points.
/// The `bounds` are the box around the shape under its transform.
fn warp_into(vector_data: &mut VectorData, transform: DAffine2, bounds: Option<(DVec2, DVec2)>, target: &WarpTarget)
    ensures
        final(vector_data)@ == warped(old(vector_data)@, transform, bounds, *target),
{
    let area: (DVec2, DVec2) = match bounds {
        Some(found) => found,
        None => (splat(0), splat(1)),
    };
    let quad: Quad = if target.positions.len() >= 4 {
        Quad {
            top_left: transform_point(target.transform, target.positions[0]),
            top_right: transform_point(target.transform, target.positions[1]),
            bottom_right: transform_point(target.transform, target.positions[2]),
            bottom_left: transform_point(target.transform, target.positions[3]),
        }
    } else {
        Quad {
            top_left: area.0,
            top_right: mixed(area.1, area.0),
            bottom_right: area.1,
            bottom_left: mixed(area.0, area.1),
        }
    };
    let ghost graph = vector_data@;
    let ghost change = warp_position(transform, area, quad);
    let ghost all = map_positions(graph, change);
    let mut i: usize = 0;
    while i < vector_data.points.len()
        invariant
            i <= vector_data.points.len(),
            change == warp_position(transform, area, quad),
            all == map_positions(graph, change),
            vector_data@.points.len() == graph.points.len(),
            vector_data@.segments == graph.segments,
            vector_data@.colinear == graph.colinear,
            vector_data@.regions == graph.regions,
            forall|j: int|
                0 <= j < graph.points.len() ==> #[trigger] vector_data@.points[j] == if j < i {
                    all.points[j]
                } else {
                    graph.points[j]
                },
        decreases vector_data.points.len() - i,
    {
        let point: AnchorPoint = vector_data.points[i];
        proof {
            assert(vector_data@.points[i as int] == graph.points[i as int]);
        }
        let position: DVec2 = compute_warp(point.position, transform, area, quad);
        vector_data.points.set(i, AnchorPoint { id: point.id, position });
        i += 1;
    }
    proof {
        assert(vector_data@.points == all.points);
    }
    let mut k: usize = 0;
    while k < vector_data.segments.len()
        invariant
            k <= vector_data.segments.len(),
            change == warp_position(transform, area, quad),
            all == map_positions(graph, change),
            vector_data@.points == all.points,
            vector_data@.segments.len() == graph.segments.len(),
            vector_data@.colinear == graph.colinear,
            vector_data@.regions == graph.regions,
            forall|j: int|
                0 <= j < graph.segments.len() ==> #[trigger] vector_data@.segments[j] == if j < k {
                    all.segments[j]
                } else {
                    graph.segments[j]
                },
        decreases vector_data.segments.len() - k,
    {
        let segment: Segment = vector_data.segments[k];
        proof {
            assert(vector_data@.segments[k as int] == graph.segments[k as int]);
        }
        let handles: BezierHandles = match segment.handles {
            BezierHandles::Linear => BezierHandles::Linear,
            BezierHandles::Quadratic { handle } => BezierHandles::Quadratic {
                handle: compute_warp(handle, transform, area, quad),
            },
            BezierHandles::Cubic { handle_start, handle_end } => BezierHandles::Cubic {
                handle_start: compute_warp(handle_start, transform, area, quad),
                handle_end: compute_warp(handle_end, transform, area, quad),
            },
        };
        vector_data.segments.set(
            k,
            Segment { id: segment.id, start: segment.start, end: segment.end, handles, stroke: segment.stroke },
        );
        k += 1;
    }
    proof {
        assert(vector_data@.segments == all.segments);
    }
}

/// Warps a shape of a table so that the box around it fills the quadrilateral of the target's first four points, and
/// returns the transform that the shape has afterwards: its own, and that of its stroke, have been applied to its points.
/// Without a target, all stays as it is. The `bounds` are the box around the shape under its transform.
pub fn box_warp(vector_data: &mut VectorData, style: &mut PathStyle, transform: DAffine2, bounds: Option<(DVec2, DVec2)>, target: Option<&WarpTarget>) -> (new_transform: DAffine2)
    ensures
        match target {
            Some(found) => {
                &&& final(vector_data)@ == warped(old(vector_data)@, transform, bounds, *found)
                &&& final(style)@ == old(style)@.with_stroke_transform(identity())
                &&& new_transform == identity()
            },
            None => {
                &&& final(vector_data)@ == old(vector_data)@
                &&& final(style)@ == old(style)@
                &&& new_transform == transform
            },
        },
{
    match target {
        Some(found) => {
            warp_into(vector_data, transform, bounds, found);
            let fresh: DAffine2 = from_translation(splat(0));
            style.set_stroke_transform(fresh);
            fresh
        },
        None => transform,
    }
}

} // verus!
