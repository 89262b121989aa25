//! Lines and splines through the points of a shape.
use glam::DVec2;
use vstd::prelude::*;

use crate::fresh_ids::{continues, FreshIds};
use crate::geometry::{difference, minus, product, splat, splat_of, times};
use crate::ids::{FillId, PointId, RegionId, SegmentId, StrokeId};
use crate::vector_data::{AnchorPoint, BezierHandles, FilledRegion, Segment, VectorData, VectorGraph};

verus! {

/// A shape of a single point, which gets the next identifier.
pub fn position_to_point(coordinate: DVec2, ids: &mut FreshIds) -> (vector_data: VectorData)
    requires
        old(ids).wf(),
    ensures
        continues(*old(ids), *final(ids)),
        final(ids).used == old(ids).used + 1,
        vector_data@.points == seq![AnchorPoint { id: PointId(final(ids).values@[old(ids).used as int]), position: coordinate }],
        vector_data@.segments == Seq::<Segment>::empty(),
        vector_data@.colinear.len() == 0,
        vector_data@.regions == Seq::<FilledRegion>::empty(),
{
    let id: PointId = PointId(ids.generate());
    let mut points: Vec<AnchorPoint> = Vec::new();
    points.push(AnchorPoint { id, position: coordinate });
    VectorData { points, segments: Vec::new(), colinear_manipulators: Vec::new(), regions: Vec::new() }
}

/// How many segments a polyline through so many points has.
pub open spec fn polyline_len(points: nat, closed: bool) -> nat {
    if points <= 2 {
        0
    } else if closed {
        points
    } else {
        (points - 1) as nat
    }
}

/// One of the segments of a polyline: from a point to the next one, or from the last to the first. Each
/// takes two identifiers.
pub open spec fn polyline_segment(points: nat, ids: Seq<u64>, used: int, i: int) -> Segment {
    Segment {
        id: SegmentId(ids[used + 2 * i]),
        start: i as usize,
        end: (if i + 1 == points {
            0
        } else {
            (i + 1) as usize
        }),
        handles: BezierHandles::Linear,
        stroke: StrokeId(ids[used + 2 * i + 1]),
    }
}

/// The first segments of a polyline.
pub open spec fn polyline_segments(points: nat, ids: Seq<u64>, used: int, n: nat) -> Seq<Segment> {
    Seq::new(n, |i: int| polyline_segment(points, ids, used, i))
}

/// The region within a closed polyline.
pub open spec fn polyline_region(points: nat, ids: Seq<u64>, used: int) -> FilledRegion {
    FilledRegion {
        id: RegionId(ids[used + 2 * points]),
        segments: (SegmentId(ids[used]), SegmentId(ids[used + 2 * (points - 1)])),
        fill: FillId(ids[used + 2 * points + 1]),
    }
}

/// The shape with the polyline through its points in place of its segments and regions.
pub open spec fn polyline(graph: VectorGraph, closed: bool, ids: Seq<u64>, used: int) -> VectorGraph {
    let n = graph.points.len();
    VectorGraph {
        segments: polyline_segments(n, ids, used, polyline_len(n, closed)),
        regions: if closed && n > 2 {
            seq![polyline_region(n, ids, used)]
        } else {
            Seq::empty()
        },
        ..graph
    }
}

/// How many identifiers a polyline takes.
pub open spec fn polyline_ids(points: nat, closed: bool) -> nat {
    2 * polyline_len(points, closed) + (if closed && points > 2 {
        2nat
    } else {
        0
    })
}

/// The segments depend only on the identifiers that they use.
proof fn lemma_polyline_prefix(points: nat, ids: Seq<u64>, more: Seq<u64>, used: int, n: nat)
    requires
        ids.is_prefix_of(more),
        0 <= used,
        used + 2 * n <= ids.len(),
    ensures
        polyline_segments(points, ids, used, n) == polyline_segments(points, more, used, n),
{
    assert forall|i: int| 0 <= i < n implies #[trigger] polyline_segment(points, ids, used, i) == polyline_segment(
        points,
        more,
        used,
        i,
    ) by {
        assert(ids[used + 2 * i] == more[used + 2 * i]);
        assert(ids[used + 2 * i + 1] == more[used + 2 * i + 1]);
    }
    assert(polyline_segments(points, ids, used, n) == polyline_segments(points, more, used, n));
}

/// Joins the points of a shape in their order by straight segments, which replace the segments and
/// regions that there were. There are none through fewer than three points. A closed polyline also joins
/// the last point to the first and fills the region within. Everything new gets the next identifiers.
pub fn points_to_polyline(vector_data: &mut VectorData, closed: bool, ids: &mut FreshIds)
    requires
        old(ids).wf(),
    ensures
        continues(*old(ids), *final(ids)),
        final(ids).used == old(ids).used + polyline_ids(old(vector_data)@.points.len(), closed),
        final(vector_data)@ == polyline(old(vector_data)@, closed, final(ids).values@, old(ids).used as int),
{
    let ghost graph = vector_data@;
    let ghost start = *ids;
    let ghost used = ids.used as int;
    let points_count: usize = vector_data.points.len();
    let ghost n = points_count as nat;
    let mut segments: Vec<Segment> = Vec::new();
    let mut regions: Vec<FilledRegion> = Vec::new();
    if points_count > 2 {
        let count: usize = if closed {
            points_count
        } else {
            points_count - 1
        };
        let mut i: usize = 0;
        while i < count
            invariant
                i <= count,
                2 < points_count,
                n == points_count,
                count == polyline_len(n, closed),
                used == start.used,
                continues(start, *ids),
                ids.used == used + 2 * i,
                segments@ == polyline_segments(n, ids.values@, used, i as nat),
            decreases count - i,
        {
            let ghost before = ids.values@;
            let id: SegmentId = SegmentId(ids.generate());
            let stroke: StrokeId = StrokeId(ids.generate());
            let end: usize = if i + 1 == points_count {
                0
            } else {
                i + 1
            };
            segments.push(Segment { id, start: i, end, handles: BezierHandles::Linear, stroke });
            proof {
                lemma_polyline_prefix(n, before, ids.values@, used, i as nat);
                assert(segments@ == polyline_segments(n, ids.values@, used, (i + 1) as nat));
            }
            i += 1;
        }
        if closed {
            let ghost before = ids.values@;
            let first: SegmentId = segments[0].id;
            let last: SegmentId = segments[points_count - 1].id;
            let id: RegionId = RegionId(ids.generate());
            let fill: FillId = FillId(ids.generate());
            proof {
                lemma_polyline_prefix(n, before, ids.values@, used, n);
                assert(first == polyline_segment(n, ids.values@, used, 0).id);
                assert(last == polyline_segment(n, ids.values@, used, n - 1).id);
            }
            regions.push(FilledRegion { id, segments: (first, last), fill });
        }
    }
    vector_data.segments = segments;
    vector_data.regions = regions;
    proof {
        assert(vector_data@.segments == polyline(graph, closed, ids.values@, used).segments);
        assert(vector_data@.regions == polyline(graph, closed, ids.values@, used).regions);
    }
}

/// A polyline is one path: each segment starts where the one before it ends, the first at the first
/// point, and it comes back there if it is closed and ends at the last point if not.
pub proof fn polyline_is_one_path(graph: VectorGraph, closed: bool, ids: Seq<u64>, used: int)
    requires
        2 < graph.points.len() <= usize::MAX,
    ensures
        ({
            let line = polyline(graph, closed, ids, used);
            &&& line.wf()
            &&& line.points == graph.points
            &&& line.segments[0].start == 0
            &&& forall|i: int| 0 < i < line.segments.len() ==> (#[trigger] line.segments[i]).start == line.segments[i - 1].end
            &&& closed ==> line.segments.last().end == 0
            &&& !closed ==> line.segments.last().end == graph.points.len() - 1
        }),
{
}

/// A stroke to draw a spline along: its points, where they are, and for each of them the handle of the
/// spline that starts there.
#[derive(Debug)]
pub struct SplineStroke {
    pub points: Vec<PointId>,
    pub positions: Vec<DVec2>,
    pub closed: bool,
    pub first_handles: Vec<DVec2>,
}

impl SplineStroke {
    /// There is a point, and for each point a position and a handle.
    pub open spec fn wf(&self) -> bool {
        &&& 0 < self.points@.len()
        &&& self.positions@.len() == self.points@.len()
        &&& self.first_handles@.len() == self.points@.len()
    }

    /// Whether the spline comes back to its first point: a closed one with more than two points does.
    pub open spec fn comes_back(&self) -> bool {
        self.closed && self.positions@.len() > 2
    }

    /// How many segments the spline has.
    pub open spec fn segment_count(&self) -> nat {
        if self.comes_back() {
            self.positions@.len()
        } else {
            (self.positions@.len() - 1) as nat
        }
    }

    /// Whether the points belong to the shape.
    pub open spec fn is_within(&self, graph: VectorGraph) -> bool {
        forall|i: int| 0 <= i < self.points@.len() ==> graph.point_index(#[trigger] self.points@[i]) is Some
    }

    /// The index of the point after one.
    pub open spec fn next_index(&self, i: int) -> int {
        if i + 1 == self.positions@.len() {
            0
        } else {
            i + 1
        }
    }
}

/// One of the segments of a spline: the handle at its end mirrors the one with which the spline goes on.
pub open spec fn spline_segment(graph: VectorGraph, stroke: SplineStroke, id: SegmentId, i: int) -> Segment {
    let next = stroke.next_index(i);
    Segment {
        id,
        start: graph.point_index(stroke.points@[i])->0 as usize,
        end: graph.point_index(stroke.points@[next])->0 as usize,
        handles: BezierHandles::Cubic {
            handle_start: stroke.first_handles@[i],
            handle_end: difference(product(stroke.positions@[next], splat_of(2)), stroke.first_handles@[next]),
        },
        stroke: StrokeId(0),
    }
}

/// The first segments of a spline.
pub open spec fn spline_segments(graph: VectorGraph, stroke: SplineStroke, ids: Seq<u64>, used: int, n: nat) -> Seq<Segment> {
    Seq::new(n, |i: int| spline_segment(graph, stroke, SegmentId(ids[used + i]), i))
}

/// The segments of the splines along the first strokes.
pub open spec fn splines(graph: VectorGraph, strokes: Seq<SplineStroke>, ids: Seq<u64>, used: int, n: nat) -> Seq<Segment>
    decreases n,
{
    if n == 0 {
        Seq::empty()
    } else {
        let before = splines(graph, strokes, ids, used, (n - 1) as nat);
        before + spline_segments(graph, strokes[n - 1], ids, used + before.len(), strokes[n - 1].segment_count())
    }
}

/// How many segments the splines along the first strokes have.
pub open spec fn splines_len(strokes: Seq<SplineStroke>, n: nat) -> nat
    decreases n,
{
    if n == 0 {
        0
    } else {
        splines_len(strokes, (n - 1) as nat) + strokes[n - 1].segment_count()
    }
}

proof fn lemma_splines_len(graph: VectorGraph, strokes: Seq<SplineStroke>, ids: Seq<u64>, used: int, n: nat)
    ensures
        splines(graph, strokes, ids, used, n).len() == splines_len(strokes, n),
    decreases n,
{
    if n > 0 {
        lemma_splines_len(graph, strokes, ids, used, (n - 1) as nat);
    }
}

/// The segments depend only on the identifiers that they use.
proof fn lemma_spline_prefix(graph: VectorGraph, stroke: SplineStroke, ids: Seq<u64>, more: Seq<u64>, used: int, n: nat)
    requires
        ids.is_prefix_of(more),
        0 <= used,
        used + n <= ids.len(),
    ensures
        spline_segments(graph, stroke, ids, used, n) == spline_segments(graph, stroke, more, used, n),
{
    assert forall|i: int| 0 <= i < n implies #[trigger] spline_segments(graph, stroke, ids, used, n)[i] == spline_segments(
        graph,
        stroke,
        more,
        used,
        n,
    )[i] by {
        assert(ids[used + i] == more[used + i]);
    }
    assert(spline_segments(graph, stroke, ids, used, n) == spline_segments(graph, stroke, more, used, n));
}

proof fn lemma_splines_prefix(graph: VectorGraph, strokes: Seq<SplineStroke>, ids: Seq<u64>, more: Seq<u64>, used: int, n: nat)
    requires
        ids.is_prefix_of(more),
        0 <= used,
        used + splines_len(strokes, n) <= ids.len(),
    ensures
        splines(graph, strokes, ids, used, n) == splines(graph, strokes, more, used, n),
    decreases n,
{
    if n > 0 {
        let k = (n - 1) as nat;
        lemma_splines_prefix(graph, strokes, ids, more, used, k);
        lemma_splines_len(graph, strokes, ids, used, k);
        lemma_spline_prefix(
            graph,
            strokes[k as int],
            ids,
            more,
            used + splines_len(strokes, k),
            strokes[k as int].segment_count(),
        );
    }
}

/// The shape with splines along the strokes in place of its segments.
pub open spec fn splined(graph: VectorGraph, strokes: Seq<SplineStroke>, ids: Seq<u64>, used: int) -> VectorGraph {
    VectorGraph { segments: splines(graph, strokes, ids, used, strokes.len()), ..graph }
}

/// Adds the segments of the spline along one stroke.
fn append_spline(vector_data: &VectorData, stroke: &SplineStroke, segments: &mut Vec<Segment>, ids: &mut FreshIds)
    requires
        stroke.wf(),
        stroke.is_within(vector_data@),
        old(ids).wf(),
    ensures
        continues(*old(ids), *final(ids)),
        final(ids).used == old(ids).used + stroke.segment_count(),
        final(segments)@ == old(segments)@ + spline_segments(
            vector_data@,
            *stroke,
            final(ids).values@,
            old(ids).used as int,
            stroke.segment_count(),
        ),
{
    let ghost graph = vector_data@;
    let ghost start = *ids;
    let ghost used = ids.used as int;
    let ghost done = segments@;
    let len: usize = stroke.positions.len();
    let count: usize = if stroke.closed && len > 2 {
        len
    } else {
        len - 1
    };
    let mut i: usize = 0;
    while i < count
        invariant
            i <= count,
            graph == vector_data@,
            stroke.wf(),
            stroke.is_within(graph),
            len == stroke.positions@.len(),
            count == stroke.segment_count(),
            used == start.used,
            continues(start, *ids),
            ids.used == used + i,
            segments@ == done + spline_segments(graph, *stroke, ids.values@, used, i as nat),
        decreases count - i,
    {
        let next: usize = if i + 1 == len {
            0
        } else {
            i + 1
        };
        proof {
            assert(graph.point_index(stroke.points@[i as int]) is Some);
            assert(graph.point_index(stroke.points@[next as int]) is Some);
        }
        let ghost before = ids.values@;
        let from: Option<usize> = vector_data.point_index(stroke.points[i]);
        let to: Option<usize> = vector_data.point_index(stroke.points[next]);
        if let (Some(start_index), Some(end_index)) = (from, to) {
            let handles: BezierHandles = BezierHandles::Cubic {
                handle_start: stroke.first_handles[i],
                handle_end: minus(times(stroke.positions[next], splat(2)), stroke.first_handles[next]),
            };
            let id: SegmentId = SegmentId(ids.generate());
            segments.push(Segment { id, start: start_index, end: end_index, handles, stroke: StrokeId(0) });
        }
        proof {
            lemma_spline_prefix(graph, *stroke, before, ids.values@, used, i as nat);
            assert(segments@ == done + spline_segments(graph, *stroke, ids.values@, used, (i + 1) as nat));
        }
        i += 1;
    }
}

/// Draws a smooth spline along each of the strokes of a shape, in place of its segments, and returns
/// whether there were any points to draw it through. The segments get the next identifiers.
pub fn spline(vector_data: &mut VectorData, strokes: &Vec<SplineStroke>, ids: &mut FreshIds) -> (drawn: bool)
    requires
        forall|i: int| 0 <= i < strokes@.len() ==> (#[trigger] strokes@[i]).wf() && strokes@[i].is_within(old(vector_data)@),
        old(ids).wf(),
    ensures
        continues(*old(ids), *final(ids)),
        drawn == (old(vector_data)@.points.len() > 0),
        !drawn ==> {
            &&& final(vector_data)@ == old(vector_data)@
            &&& final(ids).used == old(ids).used
        },
        drawn ==> {
            &&& final(vector_data)@ == splined(old(vector_data)@, strokes@, final(ids).values@, old(ids).used as int)
            &&& final(ids).used == old(ids).used + splines_len(strokes@, strokes@.len())
        },
{
    if vector_data.points.len() == 0 {
        return false;
    }
    let ghost graph = vector_data@;
    let ghost start = *ids;
    let ghost used = ids.used as int;
    let mut segments: Vec<Segment> = Vec::new();
    let mut k: usize = 0;
    while k < strokes.len()
        invariant
            k <= strokes.len(),
            graph == vector_data@,
            forall|i: int| 0 <= i < strokes@.len() ==> (#[trigger] strokes@[i]).wf() && strokes@[i].is_within(graph),
            used == start.used,
            continues(start, *ids),
            ids.used == used + splines_len(strokes@, k as nat),
            segments@ == splines(graph, strokes@, ids.values@, used, k as nat),
        decreases strokes.len() - k,
    {
        let ghost before = ids.values@;
        proof {
            assert(strokes@[k as int].wf());
            lemma_splines_len(graph, strokes@, before, used, k as nat);
        }
        append_spline(vector_data, &strokes[k], &mut segments, ids);
        proof {
            lemma_splines_prefix(graph, strokes@, before, ids.values@, used, k as nat);
        }
        k += 1;
    }
    vector_data.segments = segments;
    true
}

/// The segments of a spline join at the points, the last and the first one of a closed spline too, and where they join,
/// the handles on both sides lie mirrored about the point.
pub proof fn spline_is_smooth(graph: VectorGraph, stroke: SplineStroke, ids: Seq<u64>, used: int, i: int)
    requires
        stroke.wf(),
        0 <= i < stroke.segment_count(),
        i + 1 < stroke.segment_count() || stroke.comes_back(),
    ensures
        ({
            let segments = spline_segments(graph, stroke, ids, used, stroke.segment_count());
            let next = stroke.next_index(i);
            &&& i + 1 < stroke.segment_count() ==> next == i + 1
            &&& i + 1 == stroke.segment_count() ==> next == 0
            &&& segments[i].end == segments[next].start
            &&& segments[i].handles->handle_end == difference(
                product(stroke.positions@[next], splat_of(2)),
                segments[next].handles->handle_start,
            )
        }),
{
}

} // verus!
