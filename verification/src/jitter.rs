//! Moving the points of a shape at random.
use glam::{DAffine2, DVec2};
use vstd::prelude::*;

use crate::geometry::{
    directions_of, divide, from_angle, from_translation, full_turn, identity, plus, product, quotient, splat, splat_of, sum, tau, times, transform_point, transform_vector, transformed_point,
    transformed_vector, way_back, way_back_of,
};
use crate::randomness::{are_drawn_for, lemma_draw, random_fraction, seeded};
use crate::style::PathStyle;
use crate::vector_data::{AnchorPoint, BezierHandles, Segment, VectorData, VectorGraph};

verus! {

/// Whether a segment starts or ends at the point.
pub open spec fn is_touched(segments: Seq<Segment>, point: int) -> bool {
    exists|i: int| 0 <= i < segments.len() && ((#[trigger] segments[i]).start == point || segments[i].end == point)
}

/// The handles of a segment whose ends move.
pub open spec fn move_handles(handles: BezierHandles, transform: DAffine2, start_delta: DVec2, end_delta: DVec2) -> BezierHandles {
    match handles {
        BezierHandles::Linear => BezierHandles::Linear,
        BezierHandles::Quadratic { handle } => BezierHandles::Quadratic {
            handle: sum(transformed_point(transform, handle), quotient(sum(start_delta, end_delta), splat_of(2))),
        },
        BezierHandles::Cubic { handle_start, handle_end } => BezierHandles::Cubic {
            handle_start: sum(handle_start, start_delta),
            handle_end: sum(handle_end, end_delta),
        },
    }
}

/// A segment whose ends move.
pub open spec fn move_segment(transform: DAffine2, deltas: Seq<DVec2>) -> spec_fn(Segment) -> Segment {
    |segment: Segment|
        Segment {
            handles: move_handles(segment.handles, transform, deltas[segment.start as int], deltas[segment.end as int]),
            ..segment
        }
}

/// The shape with its points moved by the deltas. Points without a segment stay.
pub open spec fn jittered(graph: VectorGraph, transform: DAffine2, deltas: Seq<DVec2>) -> VectorGraph {
    VectorGraph {
        points: Seq::new(
            graph.points.len(),
            |i: int|
                if is_touched(graph.segments, i) {
                    AnchorPoint { position: sum(graph.points[i].position, deltas[i]), ..graph.points[i] }
                } else {
                    graph.points[i]
                },
        ),
        segments: graph.segments.map_values(move_segment(transform, deltas)),
        ..graph
    }
}

/// The points of a shape that is being jittered, after the ends of some segments have moved.
spec fn partly_jittered(graph: VectorGraph, deltas: Seq<DVec2>, n: int) -> Seq<AnchorPoint> {
    Seq::new(
        graph.points.len(),
        |i: int|
            if is_touched(graph.segments.take(n), i) {
                AnchorPoint { position: sum(graph.points[i].position, deltas[i]), ..graph.points[i] }
            } else {
                graph.points[i]
            },
    )
}

/// Which points the next segment touches.
proof fn lemma_touched_step(segments: Seq<Segment>, n: int)
    requires
        0 <= n < segments.len(),
    ensures
        forall|p: int| #[trigger]
            is_touched(segments.take(n + 1), p) <==> is_touched(segments.take(n), p) || segments[n].start == p || segments[n].end == p,
{
    assert forall|p: int| #[trigger] is_touched(segments.take(n + 1), p) <==> is_touched(segments.take(n), p) || segments[n].start == p
        || segments[n].end == p by {
        if is_touched(segments.take(n), p) {
            let i = choose|i: int|
                0 <= i < segments.take(n).len() && ((#[trigger] segments.take(n)[i]).start == p || segments.take(n)[i].end == p);
            assert(segments.take(n + 1)[i] == segments.take(n)[i]);
        }
        assert(segments.take(n + 1)[n] == segments[n]);
        if is_touched(segments.take(n + 1), p) {
            let i = choose|i: int|
                0 <= i < segments.take(n + 1).len() && ((#[trigger] segments.take(n + 1)[i]).start == p || segments.take(n + 1)[i].end == p);
            if i < n {
                assert(segments.take(n)[i] == segments.take(n + 1)[i]);
            }
        }
    }
}

/// The handles of a segment whose ends move.
fn compute_move_handles(handles: BezierHandles, transform: DAffine2, start_delta: DVec2, end_delta: DVec2) -> (result: BezierHandles)
    ensures
        result == move_handles(handles, transform, start_delta, end_delta),
{
    match handles {
        BezierHandles::Linear => BezierHandles::Linear,
        BezierHandles::Quadratic { handle } => BezierHandles::Quadratic {
            handle: plus(transform_point(transform, handle), divide(plus(start_delta, end_delta), splat(2))),
        },
        BezierHandles::Cubic { handle_start, handle_end } => BezierHandles::Cubic {
            handle_start: plus(handle_start, start_delta),
            handle_end: plus(handle_end, end_delta),
        },
    }
}

/// Moves the points of a shape by the deltas, each of them once, and the handles of its segments with
/// them.
pub fn jitter_by_deltas(vector_data: &mut VectorData, transform: DAffine2, deltas: &Vec<DVec2>)
    requires
        old(vector_data)@.wf(),
        deltas@.len() == old(vector_data)@.points.len(),
    ensures
        final(vector_data)@ == jittered(old(vector_data)@, transform, deltas@),
{
    let ghost graph = vector_data@;
    let ghost n = graph.points.len();
    let mut already_applied: Vec<bool> = Vec::new();
    let mut p: usize = 0;
    while p < vector_data.points.len()
        invariant
            p <= vector_data.points.len(),
            vector_data@ == graph,
            already_applied@.len() == p,
            forall|j: int| 0 <= j < p ==> !#[trigger] already_applied@[j],
        decreases vector_data.points.len() - p,
    {
        already_applied.push(false);
        p += 1;
    }
    proof {
        assert(vector_data@.points == partly_jittered(graph, deltas@, 0));
    }
    let mut i: usize = 0;
    while i < vector_data.segments.len()
        invariant
            i <= vector_data.segments.len(),
            graph.wf(),
            n == graph.points.len(),
            deltas@.len() == n,
            already_applied@.len() == n,
            vector_data@.segments.len() == graph.segments.len(),
            vector_data@.points == partly_jittered(graph, deltas@, i as int),
            vector_data@.colinear == graph.colinear,
            vector_data@.regions == graph.regions,
            forall|j: int| 0 <= j < n ==> #[trigger] already_applied@[j] == is_touched(graph.segments.take(i as int), j),
            forall|j: int|
                0 <= j < graph.segments.len() ==> #[trigger] vector_data@.segments[j] == if j < i {
                    move_segment(transform, deltas@)(graph.segments[j])
                } else {
                    graph.segments[j]
                },
        decreases vector_data.segments.len() - i,
    {
        let segment: Segment = vector_data.segments[i];
        proof {
            assert(vector_data@.segments[i as int] == graph.segments[i as int]);
            assert(segment == graph.segments[i as int]);
            lemma_touched_step(graph.segments, i as int);
        }
        let start_delta: DVec2 = deltas[segment.start];
        let end_delta: DVec2 = deltas[segment.end];
        if !already_applied[segment.start] {
            let point: AnchorPoint = vector_data.points[segment.start];
            vector_data.points.set(segment.start, AnchorPoint { id: point.id, position: plus(point.position, start_delta) });
            already_applied.set(segment.start, true);
        }
        if !already_applied[segment.end] {
            let point: AnchorPoint = vector_data.points[segment.end];
            vector_data.points.set(segment.end, AnchorPoint { id: point.id, position: plus(point.position, end_delta) });
            already_applied.set(segment.end, true);
        }
        proof {
            assert(vector_data@.points == partly_jittered(graph, deltas@, i + 1));
        }
        let handles: BezierHandles = compute_move_handles(segment.handles, transform, start_delta, end_delta);
        vector_data.segments.set(
            i,
            Segment { id: segment.id, start: segment.start, end: segment.end, handles, stroke: segment.stroke },
        );
        i += 1;
    }
    proof {
        assert(graph.segments.take(i as int) == graph.segments);
        assert(vector_data@.points == jittered(graph, transform, deltas@).points);
        assert(vector_data@.segments == jittered(graph, transform, deltas@).segments);
    }
}

/// The deltas for directions and shares of the amount.
pub open spec fn jitter_deltas(transform: DAffine2, amount: DVec2, directions: Seq<DVec2>, shares: Seq<DVec2>) -> Seq<DVec2> {
    Seq::new(
        directions.len(),
        |i: int| transformed_vector(way_back_of(transform), product(product(directions[i], shares[i]), amount)),
    )
}

/// Of the numbers drawn for points, two for each, those that are shares: every second one.
pub open spec fn shares_in(numbers: Seq<DVec2>) -> Seq<DVec2> {
    Seq::new((numbers.len() / 2) as nat, |i: int| numbers[2 * i + 1])
}

/// Whether the numbers are drawn for a seed, two for each direction, and each direction is one of the share of a
/// full turn that is the first of its two numbers.
pub open spec fn are_jitters(seed: u64, generators: Seq<rand::rngs::StdRng>, numbers: Seq<DVec2>, directions: Seq<DVec2>) -> bool {
    &&& are_drawn_for(seed, generators, numbers)
    &&& numbers.len() == 2 * directions.len()
    &&& forall|i: int|
        0 <= i < directions.len() ==> directions_of(product(numbers[2 * i], tau())).contains(#[trigger] directions[i])
}

/// Moves each point of a shape in a random direction, by a random share of the amount, which is given
/// in both coordinates. The stroke of the shape loses its transform.
///
/// The directions and the shares are drawn here; what follows from them is what [`jitter_by_deltas`]
/// does.
pub fn jitter_points(vector_data: &mut VectorData, style: &mut PathStyle, transform: DAffine2, amount: DVec2, seed: u64)
    requires
        old(vector_data)@.wf(),
    ensures
        exists|generators: Seq<rand::rngs::StdRng>, numbers: Seq<DVec2>, directions: Seq<DVec2>|
            {
                &&& directions.len() == old(vector_data)@.points.len()
                &&& #[trigger] are_jitters(seed, generators, numbers, directions)
                &&& final(vector_data)@ == jittered(
                    old(vector_data)@,
                    transform,
                    jitter_deltas(transform, amount, directions, shares_in(numbers)),
                )
            },
        final(style)@ == old(style)@.with_stroke_transform(identity()),
{
    let ghost graph = vector_data@;
    let ghost mut directions: Seq<DVec2> = Seq::empty();
    let ghost mut numbers: Seq<DVec2> = Seq::empty();
    let mut generator: rand::rngs::StdRng = seeded(seed);
    let ghost mut generators: Seq<rand::rngs::StdRng> = seq![generator];
    let inverse_transform: DAffine2 = way_back(transform);
    let mut deltas: Vec<DVec2> = Vec::new();
    let mut i: usize = 0;
    while i < vector_data.points.len()
        invariant
            i <= vector_data.points.len(),
            inverse_transform == way_back_of(transform),
            directions.len() == i,
            are_jitters(seed, generators, numbers, directions),
            generators.last() == generator,
            deltas@ == jitter_deltas(transform, amount, directions, shares_in(numbers)),
        decreases vector_data.points.len() - i,
    {
        let turn: DVec2 = random_fraction(&mut generator);
        let ghost turned = generator;
        let direction: DVec2 = from_angle(times(turn, full_turn()));
        let share: DVec2 = random_fraction(&mut generator);
        deltas.push(transform_vector(inverse_transform, times(times(direction, share), amount)));
        proof {
            lemma_draw(generators, numbers, turn, turned);
            lemma_draw(generators.push(turned), numbers.push(turn), share, generator);
            let more_directions = directions.push(direction);
            let more_numbers = numbers.push(turn).push(share);
            let more_generators = generators.push(turned).push(generator);
            assert forall|k: int| 0 <= k < more_directions.len() implies directions_of(product(more_numbers[2 * k], tau())).contains(
                #[trigger] more_directions[k],
            ) by {
                if k < directions.len() {
                    assert(more_directions[k] == directions[k]);
                }
            }
            assert(shares_in(more_numbers) == shares_in(numbers).push(share));
            assert(deltas@ == jitter_deltas(transform, amount, more_directions, shares_in(more_numbers)));
            directions = more_directions;
            numbers = more_numbers;
            generators = more_generators;
        }
        i += 1;
    }
    jitter_by_deltas(vector_data, transform, &deltas);
    style.set_stroke_transform(from_translation(splat(0)));
}

/// Jittering keeps which points there are and how the segments join them.
pub proof fn jittering_keeps_the_topology(graph: VectorGraph, transform: DAffine2, deltas: Seq<DVec2>)
    requires
        graph.wf(),
    ensures
        jittered(graph, transform, deltas).wf(),
        jittered(graph, transform, deltas).point_ids() == graph.point_ids(),
        jittered(graph, transform, deltas).segments.len() == graph.segments.len(),
        forall|i: int|
            0 <= i < graph.segments.len() ==> {
                &&& (#[trigger] jittered(graph, transform, deltas).segments[i]).start == graph.segments[i].start
                &&& jittered(graph, transform, deltas).segments[i].end == graph.segments[i].end
            },
{
    let after = jittered(graph, transform, deltas);
    assert(after.point_ids() == graph.point_ids());
    assert forall|i: int| 0 <= i < after.segments.len() implies {
        &&& (#[trigger] after.segments[i]).start < after.points.len()
        &&& after.segments[i].end < after.points.len()
    } by {
        assert(graph.segments[i].start < graph.points.len());
    }
}

} // verus!
