//! Splitting a shape into its segments.
use vstd::prelude::*;

use crate::bevel::ends_at;
use crate::ids::PointId;
use crate::vector_data::{AnchorPoint, Segment, VectorData, VectorGraph};

verus! {

/// How many points take the place of a point: one for each end of a segment there, and at least one.
pub open spec fn copies_of(segments: Seq<Segment>, point: int) -> nat {
    let ends = ends_at(segments, point, segments.len());
    if ends == 0 {
        1
    } else {
        ends
    }
}

/// The index of the first of the points that take the place of a point.
pub open spec fn offset_of(segments: Seq<Segment>, point: nat) -> nat
    decreases point,
{
    if point == 0 {
        0
    } else {
        offset_of(segments, (point - 1) as nat) + copies_of(segments, point - 1)
    }
}

/// The points that take the place of a point: itself, and copies with the identifiers that are given for it.
pub open spec fn point_copies(graph: VectorGraph, point: int, copy_ids: Seq<Vec<PointId>>) -> Seq<AnchorPoint> {
    Seq::new(
        copies_of(graph.segments, point),
        |i: int|
            if i == 0 {
                graph.points[point]
            } else {
                AnchorPoint { id: copy_ids[point]@[i - 1], position: graph.points[point].position }
            },
    )
}

/// The points that take the place of the first `n` points.
pub open spec fn split_points(graph: VectorGraph, copy_ids: Seq<Vec<PointId>>, n: nat) -> Seq<AnchorPoint>
    decreases n,
{
    if n == 0 {
        Seq::empty()
    } else {
        split_points(graph, copy_ids, (n - 1) as nat) + point_copies(graph, n - 1, copy_ids)
    }
}

/// Which of the new points an end of a segment is moved to: the last copy for the first segment at the
/// point, and so on down.
pub open spec fn split_end(segments: Seq<Segment>, point: int, index: int) -> int {
    offset_of(segments, point as nat) + ends_at(segments, point, segments.len()) - ends_at(segments, point, (index + 1) as nat)
}

/// The shape with each end of a segment at a point of its own.
pub open spec fn split_graph(graph: VectorGraph, copy_ids: Seq<Vec<PointId>>) -> VectorGraph {
    VectorGraph {
        points: split_points(graph, copy_ids, graph.points.len()),
        segments: Seq::new(
            graph.segments.len(),
            |i: int|
                Segment {
                    start: split_end(graph.segments, graph.segments[i].start as int, i) as usize,
                    end: split_end(graph.segments, graph.segments[i].end as int, i) as usize,
                    ..graph.segments[i]
                },
        ),
        ..graph
    }
}

/// More segments have no fewer ends at a point.
proof fn lemma_ends_grow(segments: Seq<Segment>, point: int, n: nat, more: nat)
    requires
        n <= more,
    ensures
        ends_at(segments, point, n) <= ends_at(segments, point, more),
    decreases more,
{
    if n < more {
        lemma_ends_grow(segments, point, n, (more - 1) as nat);
    }
}

/// How many ends of the first `n` segments are at the first points.
spec fn ends_before(segments: Seq<Segment>, point: nat, n: nat) -> nat
    decreases point,
{
    if point == 0 {
        0
    } else {
        ends_before(segments, (point - 1) as nat, n) + ends_at(segments, point - 1, n)
    }
}

/// Another segment adds its two ends.
proof fn lemma_ends_before_step(segments: Seq<Segment>, point: nat, n: nat)
    requires
        0 < n,
    ensures
        ends_before(segments, point, n) == ends_before(segments, point, (n - 1) as nat) + (if segments[n - 1].start < point {
            1nat
        } else {
            0
        }) + (if segments[n - 1].end < point {
            1nat
        } else {
            0
        }),
    decreases point,
{
    if point > 0 {
        lemma_ends_before_step(segments, (point - 1) as nat, n);
    }
}

/// A segment has two ends.
proof fn lemma_ends_before_bound(segments: Seq<Segment>, point: nat, n: nat)
    ensures
        ends_before(segments, point, n) <= 2 * n,
    decreases n,
{
    if n == 0 {
        lemma_no_ends(segments, point);
    } else {
        lemma_ends_before_step(segments, point, n);
        lemma_ends_before_bound(segments, point, (n - 1) as nat);
    }
}

proof fn lemma_no_ends(segments: Seq<Segment>, point: nat)
    ensures
        ends_before(segments, point, 0) == 0,
    decreases point,
{
    if point > 0 {
        lemma_no_ends(segments, (point - 1) as nat);
    }
}

/// There are no more new points than there were points and ends of segments.
proof fn lemma_offset_bound(segments: Seq<Segment>, point: nat)
    ensures
        point <= offset_of(segments, point) <= point + 2 * segments.len(),
        offset_of(segments, point) <= point + ends_before(segments, point, segments.len()),
    decreases point,
{
    lemma_ends_before_bound(segments, point, segments.len());
    if point > 0 {
        lemma_offset_bound(segments, (point - 1) as nat);
    }
}

/// The copies of a point come before those of a later one.
proof fn lemma_offset_grows(segments: Seq<Segment>, point: nat, later: nat)
    requires
        point < later,
    ensures
        offset_of(segments, point) + copies_of(segments, point as int) <= offset_of(segments, later),
    decreases later,
{
    if point + 1 < later {
        lemma_offset_grows(segments, point, (later - 1) as nat);
    }
}

/// Where an end of a segment is moved to is among the copies of its point.
proof fn lemma_split_end_in_range(segments: Seq<Segment>, point: int, index: int)
    requires
        0 <= point,
        0 <= index < segments.len(),
        segments[index].start == point || segments[index].end == point,
    ensures
        offset_of(segments, point as nat) <= split_end(segments, point, index) < offset_of(segments, point as nat) + copies_of(
            segments,
            point,
        ),
{
    lemma_ends_grow(segments, point, (index + 1) as nat, segments.len());
    lemma_ends_grow(segments, point, 0, index as nat);
}

/// The points that take the place of a point stand together.
proof fn lemma_split_points(graph: VectorGraph, copy_ids: Seq<Vec<PointId>>, n: nat, point: int, i: int)
    requires
        0 <= point < n,
        0 <= i < copies_of(graph.segments, point),
    ensures
        split_points(graph, copy_ids, n).len() == offset_of(graph.segments, n),
        offset_of(graph.segments, point as nat) + i < offset_of(graph.segments, n),
        split_points(graph, copy_ids, n)[offset_of(graph.segments, point as nat) + i] == point_copies(graph, point, copy_ids)[i],
    decreases n,
{
    lemma_split_points_len(graph, copy_ids, n);
    lemma_split_points_len(graph, copy_ids, (n - 1) as nat);
    lemma_offset_grows(graph.segments, point as nat, n);
    if point < n - 1 {
        lemma_split_points(graph, copy_ids, (n - 1) as nat, point, i);
    }
}

proof fn lemma_split_points_len(graph: VectorGraph, copy_ids: Seq<Vec<PointId>>, n: nat)
    ensures
        split_points(graph, copy_ids, n).len() == offset_of(graph.segments, n),
    decreases n,
{
    if n > 0 {
        lemma_split_points_len(graph, copy_ids, (n - 1) as nat);
    }
}

/// How many ends of segments are at each point.
pub fn count_ends(vector_data: &VectorData) -> (usages: Vec<usize>)
    requires
        vector_data@.wf(),
        2 * vector_data@.segments.len() <= usize::MAX,
    ensures
        usages@.len() == vector_data@.points.len(),
        forall|p: int|
            0 <= p < usages@.len() ==> #[trigger] usages@[p] == ends_at(
                vector_data@.segments,
                p,
                vector_data@.segments.len(),
            ),
{
    let ghost segments = vector_data@.segments;
    let mut usages: Vec<usize> = Vec::new();
    let mut q: usize = 0;
    while q < vector_data.points.len()
        invariant
            q <= vector_data.points.len(),
            segments == vector_data@.segments,
            usages@.len() == q,
            forall|p: int| 0 <= p < q ==> #[trigger] usages@[p] == ends_at(segments, p, 0),
        decreases vector_data.points.len() - q,
    {
        usages.push(0);
        q += 1;
    }
    let mut i: usize = 0;
    while i < vector_data.segments.len()
        invariant
            i <= vector_data.segments.len(),
            vector_data@.wf(),
            segments == vector_data@.segments,
            2 * segments.len() <= usize::MAX,
            usages@.len() == vector_data@.points.len(),
            forall|p: int| 0 <= p < usages@.len() ==> #[trigger] usages@[p] == ends_at(segments, p, i as nat),
        decreases vector_data.segments.len() - i,
    {
        let segment: Segment = vector_data.segments[i];
        let ghost before = usages@;
        proof {
            assert(segment == segments[i as int]);
            lemma_ends_at_bound(segments, segment.start as int, i as nat);
            lemma_ends_at_bound(segments, segment.end as int, i as nat);
        }
        let at_start: usize = usages[segment.start];
        usages.set(segment.start, at_start + 1);
        let at_end: usize = usages[segment.end];
        usages.set(segment.end, at_end + 1);
        i += 1;
    }
    usages
}

/// A segment has two ends.
proof fn lemma_ends_at_bound(segments: Seq<Segment>, point: int, n: nat)
    ensures
        ends_at(segments, point, n) <= 2 * n,
    decreases n,
{
    if n > 0 {
        lemma_ends_at_bound(segments, point, (n - 1) as nat);
    }
}

/// Whether identifiers are given for all copies of the points.
pub open spec fn are_copies_named(graph: VectorGraph, copy_ids: Seq<Vec<PointId>>) -> bool {
    &&& copy_ids.len() == graph.points.len()
    &&& forall|p: int| 0 <= p < graph.points.len() ==> copies_of(graph.segments, p) <= (#[trigger] copy_ids[p])@.len() + 1
}

/// The points that take the place of those of the shape, and for each of those the index of the first
/// that does.
fn copy_points(vector_data: &VectorData, usages: &Vec<usize>, copy_ids: &Vec<Vec<PointId>>) -> (result: (Vec<AnchorPoint>, Vec<usize>))
    requires
        vector_data@.points.len() + 2 * vector_data@.segments.len() <= usize::MAX,
        are_copies_named(vector_data@, copy_ids@),
        usages@.len() == vector_data@.points.len(),
        forall|p: int|
            0 <= p < usages@.len() ==> #[trigger] usages@[p] == ends_at(
                vector_data@.segments,
                p,
                vector_data@.segments.len(),
            ),
    ensures
        result.0@ == split_points(vector_data@, copy_ids@, vector_data@.points.len()),
        result.1@.len() == vector_data@.points.len(),
        forall|p: int| 0 <= p < result.1@.len() ==> #[trigger] result.1@[p] == offset_of(vector_data@.segments, p as nat),
{
    let ghost graph = vector_data@;
    let mut points: Vec<AnchorPoint> = Vec::new();
    let mut offsets: Vec<usize> = Vec::new();
    let mut offset: usize = 0;
    let mut p: usize = 0;
    while p < vector_data.points.len()
        invariant
            p <= vector_data.points.len(),
            graph == vector_data@,
            graph.points.len() + 2 * graph.segments.len() <= usize::MAX,
            are_copies_named(graph, copy_ids@),
            usages@.len() == graph.points.len(),
            forall|q: int| 0 <= q < usages@.len() ==> #[trigger] usages@[q] == ends_at(graph.segments, q, graph.segments.len()),
            offset == offset_of(graph.segments, p as nat),
            points@ == split_points(graph, copy_ids@, p as nat),
            offsets@.len() == p,
            forall|q: int| 0 <= q < p ==> #[trigger] offsets@[q] == offset_of(graph.segments, q as nat),
        decreases vector_data.points.len() - p,
    {
        let point: AnchorPoint = vector_data.points[p];
        let usage: usize = usages[p];
        let count: usize = if usage == 0 {
            1
        } else {
            usage
        };
        let ghost done = points@;
        let ghost copies = point_copies(graph, p as int, copy_ids@);
        proof {
            lemma_offset_bound(graph.segments, (p + 1) as nat);
        }
        points.push(point);
        let names: &Vec<PointId> = &copy_ids[p];
        let mut i: usize = 1;
        proof {
            assert(points@ == done + copies.take(1));
        }
        while i < count
            invariant
                1 <= i <= count,
                p < graph.points.len(),
                count == copies_of(graph.segments, p as int),
                point == graph.points[p as int],
                names@ == copy_ids@[p as int]@,
                count <= names@.len() + 1,
                copies == point_copies(graph, p as int, copy_ids@),
                points@ == done + copies.take(i as int),
            decreases count - i,
        {
            points.push(AnchorPoint { id: names[i - 1], position: point.position });
            proof {
                assert(copies.take(i + 1) == copies.take(i as int).push(copies[i as int]));
            }
            i += 1;
        }
        proof {
            assert(copies.take(i as int) == copies);
        }
        offsets.push(offset);
        offset += count;
        p += 1;
    }
    (points, offsets)
}

/// Splits a shape into separate pieces: each segment gets points of its own for its ends. A copy of a point gets the
/// identifier that is given for it, which is one that the identifier of the point and the number of the copy generate.
pub fn split_segments(vector_data: &mut VectorData, copy_ids: &Vec<Vec<PointId>>)
    requires
        old(vector_data)@.wf(),
        old(vector_data)@.points.len() + 2 * old(vector_data)@.segments.len() <= usize::MAX,
        are_copies_named(old(vector_data)@, copy_ids@),
    ensures
        final(vector_data)@ == split_graph(old(vector_data)@, copy_ids@),
{
    let ghost graph = vector_data@;
    let ghost segments = graph.segments;
    let ghost n = segments.len();
    let mut usages: Vec<usize> = count_ends(vector_data);
    let (points, offsets): (Vec<AnchorPoint>, Vec<usize>) = copy_points(vector_data, &usages, copy_ids);
    let ghost new_points = points@;
    vector_data.points = points;
    let ghost split = split_graph(graph, copy_ids@);
    proof {
        assert forall|p: int| 0 <= p < usages@.len() implies #[trigger] usages@[p] == ends_at(segments, p, n) - ends_at(segments, p, 0) by {}
    }
    let mut i: usize = 0;
    while i < vector_data.segments.len()
        invariant
            i <= vector_data.segments.len(),
            graph.wf(),
            segments == graph.segments,
            n == segments.len(),
            graph.points.len() + 2 * n <= usize::MAX,
            split.segments == split_graph(graph, copy_ids@).segments,
            vector_data@.points == new_points,
            vector_data@.colinear == graph.colinear,
            vector_data@.regions == graph.regions,
            vector_data@.segments.len() == n,
            usages@.len() == graph.points.len(),
            offsets@.len() == graph.points.len(),
            forall|p: int| 0 <= p < offsets@.len() ==> #[trigger] offsets@[p] == offset_of(segments, p as nat),
            forall|p: int| 0 <= p < usages@.len() ==> #[trigger] usages@[p] == ends_at(segments, p, n) - ends_at(segments, p, i as nat),
            forall|k: int|
                0 <= k < n ==> #[trigger] vector_data@.segments[k] == if k < i {
                    split.segments[k]
                } else {
                    segments[k]
                },
        decreases vector_data.segments.len() - i,
    {
        let segment: Segment = vector_data.segments[i];
        proof {
            assert(vector_data@.segments[i as int] == segments[i as int]);
            lemma_ends_grow(segments, segment.start as int, (i + 1) as nat, n);
            lemma_ends_grow(segments, segment.end as int, (i + 1) as nat, n);
            lemma_split_end_in_range(segments, segment.start as int, i as int);
            lemma_split_end_in_range(segments, segment.end as int, i as int);
            lemma_offset_bound(segments, (segment.start + 1) as nat);
            lemma_offset_bound(segments, (segment.end + 1) as nat);
        }
        let at_start: usize = usages[segment.start];
        usages.set(segment.start, at_start - 1);
        let at_end: usize = usages[segment.end];
        usages.set(segment.end, at_end - 1);
        let start: usize = offsets[segment.start] + usages[segment.start];
        let end: usize = offsets[segment.end] + usages[segment.end];
        vector_data.segments.set(i, Segment { id: segment.id, start, end, handles: segment.handles, stroke: segment.stroke });
        i += 1;
    }
    proof {
        assert(vector_data@.segments == split.segments);
    }
}

/// After splitting, each end of a segment is at a point of its own where the end was before: no two
/// segments share a point, and a segment that ran between two points still does.
pub proof fn split_ends_are_apart(graph: VectorGraph, copy_ids: Seq<Vec<PointId>>, i: int, j: int)
    requires
        graph.wf(),
        graph.points.len() + 2 * graph.segments.len() <= usize::MAX,
        0 <= i < graph.segments.len(),
        0 <= j < graph.segments.len(),
    ensures
        ({
            let split = split_graph(graph, copy_ids);
            &&& split.wf()
            &&& split.points.len() == offset_of(graph.segments, graph.points.len())
            &&& split.points[split.segments[i].start as int].position == graph.points[graph.segments[i].start as int].position
            &&& split.points[split.segments[i].end as int].position == graph.points[graph.segments[i].end as int].position
            &&& i != j ==> {
                &&& split.segments[i].start != split.segments[j].start
                &&& split.segments[i].start != split.segments[j].end
                &&& split.segments[i].end != split.segments[j].start
                &&& split.segments[i].end != split.segments[j].end
            }
            &&& graph.segments[i].start != graph.segments[i].end ==> split.segments[i].start != split.segments[i].end
        }),
{
    let segments = graph.segments;
    let n = graph.points.len();
    let split = split_graph(graph, copy_ids);
    lemma_split_points_len(graph, copy_ids, n);
    lemma_offset_bound(segments, n);
    assert forall|k: int| 0 <= k < segments.len() implies {
        &&& (#[trigger] split.segments[k]).start < split.points.len()
        &&& split.segments[k].end < split.points.len()
    } by {
        lemma_end_of_split(graph, copy_ids, segments[k].start as int, k);
        lemma_end_of_split(graph, copy_ids, segments[k].end as int, k);
    }
    lemma_end_of_split(graph, copy_ids, segments[i].start as int, i);
    lemma_end_of_split(graph, copy_ids, segments[i].end as int, i);
    lemma_end_of_split(graph, copy_ids, segments[j].start as int, j);
    lemma_end_of_split(graph, copy_ids, segments[j].end as int, j);
    if i != j {
        lemma_ends_apart(segments, segments[i].start as int, segments[j].start as int, i, j);
        lemma_ends_apart(segments, segments[i].start as int, segments[j].end as int, i, j);
        lemma_ends_apart(segments, segments[i].end as int, segments[j].start as int, i, j);
        lemma_ends_apart(segments, segments[i].end as int, segments[j].end as int, i, j);
    }
    if segments[i].start != segments[i].end {
        lemma_copies_apart(segments, segments[i].start as int, segments[i].end as int, i, i);
    }
}

/// Where an end of a segment is moved to.
proof fn lemma_end_of_split(graph: VectorGraph, copy_ids: Seq<Vec<PointId>>, point: int, index: int)
    requires
        0 <= index < graph.segments.len(),
        0 <= point < graph.points.len(),
        graph.points.len() + 2 * graph.segments.len() <= usize::MAX,
        graph.segments[index].start == point || graph.segments[index].end == point,
    ensures
        0 <= split_end(graph.segments, point, index) < offset_of(graph.segments, graph.points.len()),
        offset_of(graph.segments, graph.points.len()) <= usize::MAX,
        split_points(graph, copy_ids, graph.points.len())[split_end(graph.segments, point, index)].position
            == graph.points[point].position,
{
    lemma_split_end_in_range(graph.segments, point, index);
    lemma_offset_bound(graph.segments, graph.points.len());
    lemma_split_points(
        graph,
        copy_ids,
        graph.points.len(),
        point,
        split_end(graph.segments, point, index) - offset_of(graph.segments, point as nat),
    );
}

/// The copies of different points are different.
proof fn lemma_copies_apart(segments: Seq<Segment>, point: int, other: int, i: int, j: int)
    requires
        0 <= point,
        0 <= other,
        point != other,
        0 <= i < segments.len(),
        0 <= j < segments.len(),
        segments[i].start == point || segments[i].end == point,
        segments[j].start == other || segments[j].end == other,
    ensures
        split_end(segments, point, i) != split_end(segments, other, j),
{
    lemma_split_end_in_range(segments, point, i);
    lemma_split_end_in_range(segments, other, j);
    if point < other {
        lemma_offset_grows(segments, point as nat, other as nat);
    } else {
        lemma_offset_grows(segments, other as nat, point as nat);
    }
}

/// The ends of different segments are moved to different points.
proof fn lemma_ends_apart(segments: Seq<Segment>, point: int, other: int, i: int, j: int)
    requires
        0 <= point,
        0 <= other,
        i != j,
        0 <= i < segments.len(),
        0 <= j < segments.len(),
        segments[i].start == point || segments[i].end == point,
        segments[j].start == other || segments[j].end == other,
    ensures
        split_end(segments, point, i) != split_end(segments, other, j),
{
    if point != other {
        lemma_copies_apart(segments, point, other, i, j);
    } else if i < j {
        lemma_ends_grow(segments, point, (i + 1) as nat, j as nat);
    } else {
        lemma_ends_grow(segments, point, (j + 1) as nat, i as nat);
    }
}

/// Where points are met by one end of a segment at most, no point is copied.
proof fn lemma_nothing_to_copy(segments: Seq<Segment>, n: nat)
    requires
        forall|p: int| 0 <= p ==> #[trigger] ends_at(segments, p, segments.len()) <= 1,
    ensures
        offset_of(segments, n) == n,
    decreases n,
{
    if n > 0 {
        lemma_nothing_to_copy(segments, (n - 1) as nat);
        assert(ends_at(segments, n - 1, segments.len()) <= 1);
    }
}

/// A point that ends of segments are at is an end of one of them.
proof fn lemma_end_is_somewhere(segments: Seq<Segment>, point: int, n: nat) -> (j: int)
    requires
        ends_at(segments, point, n) > 0,
    ensures
        0 <= j < n,
        segments[j].start == point || segments[j].end == point,
    decreases n,
{
    if segments[n - 1].start == point || segments[n - 1].end == point {
        n - 1
    } else {
        lemma_end_is_somewhere(segments, point, (n - 1) as nat)
    }
}

/// Where no two ends of segments share a point, one end at most is at each.
proof fn lemma_one_end_each(segments: Seq<Segment>, point: int, n: nat)
    requires
        n <= segments.len(),
        forall|i: int| 0 <= i < segments.len() ==> (#[trigger] segments[i]).start != segments[i].end,
        forall|i: int, j: int|
            0 <= i < segments.len() && 0 <= j < segments.len() && i != j ==> {
                &&& (#[trigger] segments[i]).start != (#[trigger] segments[j]).start
                &&& segments[i].start != segments[j].end
                &&& segments[i].end != segments[j].end
            },
    ensures
        ends_at(segments, point, n) <= 1,
    decreases n,
{
    if n > 0 {
        lemma_one_end_each(segments, point, (n - 1) as nat);
        if ends_at(segments, point, (n - 1) as nat) > 0 {
            let j = lemma_end_is_somewhere(segments, point, (n - 1) as nat);
            assert(segments[j].start != segments[n - 1].start);
            assert(segments[n - 1].start != segments[j].start);
        }
    }
}

/// The points that take the place of points without copies are those points.
proof fn lemma_split_points_stay(graph: VectorGraph, copy_ids: Seq<Vec<PointId>>, n: nat)
    requires
        n <= graph.points.len(),
        forall|p: int| 0 <= p ==> #[trigger] ends_at(graph.segments, p, graph.segments.len()) <= 1,
    ensures
        split_points(graph, copy_ids, n) == graph.points.take(n as int),
    decreases n,
{
    if n > 0 {
        lemma_split_points_stay(graph, copy_ids, (n - 1) as nat);
        assert(ends_at(graph.segments, n - 1, graph.segments.len()) <= 1);
        assert(point_copies(graph, n - 1, copy_ids) == seq![graph.points[n - 1]]);
        assert(graph.points.take(n as int) == graph.points.take(n - 1) + seq![graph.points[n - 1]]);
    }
}

/// Splitting a shape that has been split changes nothing, whatever identifiers are given for copies: no segment of
/// the shape may begin and end at the same point.
pub proof fn splitting_twice_is_splitting(graph: VectorGraph, copy_ids: Seq<Vec<PointId>>, other_ids: Seq<Vec<PointId>>)
    requires
        graph.wf(),
        graph.points.len() + 2 * graph.segments.len() <= usize::MAX,
        forall|i: int| 0 <= i < graph.segments.len() ==> (#[trigger] graph.segments[i]).start != graph.segments[i].end,
    ensures
        split_graph(split_graph(graph, copy_ids), other_ids) == split_graph(graph, copy_ids),
{
    let split = split_graph(graph, copy_ids);
    let segments = split.segments;
    assert forall|i: int| 0 <= i < segments.len() implies (#[trigger] segments[i]).start != segments[i].end by {
        assert(graph.segments[i].start != graph.segments[i].end);
        split_ends_are_apart(graph, copy_ids, i, i);
    }
    assert forall|i: int, j: int| 0 <= i < segments.len() && 0 <= j < segments.len() && i != j implies {
        &&& (#[trigger] segments[i]).start != (#[trigger] segments[j]).start
        &&& segments[i].start != segments[j].end
        &&& segments[i].end != segments[j].end
    } by {
        split_ends_are_apart(graph, copy_ids, i, j);
    }
    assert forall|p: int| 0 <= p implies #[trigger] ends_at(segments, p, segments.len()) <= 1 by {
        lemma_one_end_each(segments, p, segments.len());
    }
    lemma_split_points_stay(split, other_ids, split.points.len());
    assert(split.points.take(split.points.len() as int) == split.points);
    let again = split_graph(split, other_ids);
    assert forall|i: int| 0 <= i < segments.len() implies #[trigger] again.segments[i] == segments[i] by {
        let start = segments[i].start as int;
        let end = segments[i].end as int;
        lemma_nothing_to_copy(segments, start as nat);
        lemma_nothing_to_copy(segments, end as nat);
        lemma_ends_grow(segments, start, (i + 1) as nat, segments.len());
        lemma_ends_grow(segments, end, (i + 1) as nat, segments.len());
        assert(ends_at(segments, start, segments.len()) <= 1);
        assert(ends_at(segments, end, segments.len()) <= 1);
        assert(ends_at(segments, start, (i + 1) as nat) >= 1);
        assert(ends_at(segments, end, (i + 1) as nat) >= 1);
    }
    assert(again.segments == segments);
}

} // verus!
