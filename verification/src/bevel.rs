//! Cutting the corners of a shape.
use glam::DVec2;
use vstd::prelude::*;

use crate::geometry::{is_less, less, splat, splat_of};
use crate::ids::{PointId, SegmentId, StrokeId};
use crate::sequences::{append_copies, first_index, lemma_distinct_items_fit, lemma_first_index, lemma_first_index_is, lemma_first_index_none};
use crate::vector_data::{AnchorPoint, Bezier, BezierHandles, Segment, VectorData, VectorGraph};

verus! {

/// How many ends of the first `n` segments are at the point.
pub open spec fn ends_at(segments: Seq<Segment>, point: int, n: nat) -> nat
    decreases n,
{
    if n == 0 {
        0
    } else {
        let segment = segments[n - 1];
        ends_at(segments, point, (n - 1) as nat) + (if segment.start == point {
            1nat
        } else {
            0
        }) + (if segment.end == point {
            1nat
        } else {
            0
        })
    }
}

/// Whether the point is a corner: exactly two ends of segments are there.
pub open spec fn is_corner(segments: Seq<Segment>, point: int) -> bool {
    ends_at(segments, point, segments.len()) == 2
}

/// For each point how many ends of segments are there, if it is a corner, and zero otherwise.
pub open spec fn corner_ends(graph: VectorGraph) -> Seq<int> {
    Seq::new(
        graph.points.len(),
        |point: int|
            if is_corner(graph.segments, point) {
                2
            } else {
                0
            },
    )
}

pub open spec fn starts_at(point: int) -> spec_fn(Segment) -> bool {
    |segment: Segment| segment.start == point
}

/// The first segment that starts where the segment ends.
pub open spec fn following(segments: Seq<Segment>, index: int) -> Option<int> {
    first_index(segments, starts_at(segments[index].end as int))
}

/// The order continued, for so many steps at most, by the segments that follow its last one, up to
/// where it comes back to the first segment or ends.
pub open spec fn follow_on(segments: Seq<Segment>, order: Seq<int>, steps: nat) -> Seq<int>
    decreases steps,
{
    if steps == 0 {
        order
    } else {
        match following(segments, order.last()) {
            Some(index) => if index == 0 {
                order
            } else {
                follow_on(segments, order.push(index), (steps - 1) as nat)
            },
            None => order,
        }
    }
}

/// The order with those of the first `n` numbers that it lacks.
pub open spec fn with_missing(order: Seq<int>, n: nat) -> Seq<int>
    decreases n,
{
    if n == 0 {
        order
    } else {
        let before = with_missing(order, (n - 1) as nat);
        if before.contains(n - 1) {
            before
        } else {
            before.push(n - 1)
        }
    }
}

/// The order in which the segments are looked at: along the path of the first one, then the others.
pub open spec fn segment_order(segments: Seq<Segment>) -> Seq<int> {
    let path = follow_on(segments, seq![0], segments.len());
    if path.len() == segments.len() {
        path
    } else {
        with_missing(path, segments.len())
    }
}

/// What the sequence holds beside the missing numbers.
proof fn lemma_with_missing(order: Seq<int>, n: nat)
    ensures
        forall|k: int| 0 <= k < n ==> #[trigger] with_missing(order, n).contains(k),
        forall|k: int| #[trigger] with_missing(order, n).contains(k) ==> order.contains(k) || 0 <= k < n,
        with_missing(order, n).len() >= order.len(),
    decreases n,
{
    if n > 0 {
        let before = with_missing(order, (n - 1) as nat);
        lemma_with_missing(order, (n - 1) as nat);
        let after = with_missing(order, n);
        assert forall|k: int| 0 <= k < n implies #[trigger] after.contains(k) by {
            if k < n - 1 {
                assert(before.contains(k));
                let j = choose|j: int| 0 <= j < before.len() && before[j] == k;
                assert(after[j] == k);
            } else if !before.contains(n - 1) {
                assert(after[before.len() as int] == k);
            }
        }
        if !before.contains(n - 1) {
            assert forall|k: int| #[trigger] after.contains(k) implies order.contains(k) || 0 <= k < n by {
                let j = choose|j: int| 0 <= j < after.len() && after[j] == k;
                if j < before.len() {
                    assert(before[j] == k);
                    assert(before.contains(k));
                }
            }
        }
    }
}

/// Following on keeps to the segments.
proof fn lemma_follow_on(segments: Seq<Segment>, order: Seq<int>, steps: nat)
    requires
        order.len() > 0,
        forall|i: int| 0 <= i < order.len() ==> 0 <= #[trigger] order[i] < segments.len(),
    ensures
        follow_on(segments, order, steps).len() > 0,
        forall|i: int|
            0 <= i < follow_on(segments, order, steps).len() ==> 0 <= #[trigger] follow_on(segments, order, steps)[i]
                < segments.len(),
    decreases steps,
{
    if steps > 0 {
        lemma_first_index(segments, starts_at(segments[order.last()].end as int));
        if let Some(index) = following(segments, order.last()) {
            if index != 0 {
                lemma_follow_on(segments, order.push(index), (steps - 1) as nat);
            }
        }
    }
}

/// The order holds only segments, and at least as many as there are; unless it is the path of the
/// first segment alone, it holds every one of them.
pub proof fn order_covers_the_segments(segments: Seq<Segment>)
    requires
        segments.len() > 0,
    ensures
        segment_order(segments).len() >= segments.len(),
        forall|i: int| 0 <= i < segment_order(segments).len() ==> 0 <= #[trigger] segment_order(segments)[i] < segments.len(),
        follow_on(segments, seq![0], segments.len()).len() != segments.len() ==> forall|k: int|
            0 <= k < segments.len() ==> #[trigger] segment_order(segments).contains(k),
{
    let n = segments.len();
    let path = follow_on(segments, seq![0], n);
    lemma_follow_on(segments, seq![0], n);
    if path.len() != n {
        let order = segment_order(segments);
        lemma_with_missing(path, n);
        let all = Seq::new(n, |i: int| i);
        assert forall|k: int| #[trigger] all.contains(k) implies order.contains(k) by {
            assert(0 <= k < n);
        }
        lemma_distinct_items_fit(all, order);
        assert forall|i: int| 0 <= i < order.len() implies 0 <= #[trigger] order[i] < n by {
            assert(order.contains(order[i]));
            if path.contains(order[i]) {
                let j = choose|j: int| 0 <= j < path.len() && path[j] == order[i];
                assert(0 <= path[j] < n);
            }
        }
    }
}

/// What cutting a corner does to the two segments that meet there.
#[derive(Clone, Copy, Debug)]
pub struct BevelCut {
    /// Whether the first segment is long enough to be cut at its end.
    pub cuts_end: bool,
    /// Where the first segment ends if it is cut.
    pub end: DVec2,
    /// The handles of the first segment, cut or not.
    pub handles: BezierHandles,
    /// Whether the second segment is long enough to be cut at its start.
    pub cuts_start: bool,
    /// Where the second segment starts if it is cut.
    pub start: DVec2,
    /// The handles of the second segment if it is cut.
    pub next_handles: BezierHandles,
}

/// A shape while its corners are being cut, as mathematical values.
pub struct Beveling {
    pub points: Seq<AnchorPoint>,
    pub segments: Seq<Segment>,
    /// For each point how many ends of segments are still to be moved away from it.
    pub connected: Seq<int>,
    /// The pairs of points that a new segment is to join.
    pub joins: Seq<(int, int)>,
    /// The last identifier that was given to a new point.
    pub last_id: PointId,
}

impl PointId {
    pub open spec fn spec_successor(self) -> PointId {
        PointId(
            if self.0 == u64::MAX {
                0
            } else {
                (self.0 + 1) as u64
            },
        )
    }

    /// The identifier after this one.
    #[verifier::when_used_as_spec(spec_successor)]
    pub fn successor(self) -> (id: PointId)
        ensures
            id == self.spec_successor(),
    {
        if self.0 == u64::MAX {
            PointId(0)
        } else {
            PointId(self.0 + 1)
        }
    }
}

impl SegmentId {
    pub open spec fn spec_successor(self) -> SegmentId {
        SegmentId(
            if self.0 == u64::MAX {
                0
            } else {
                (self.0 + 1) as u64
            },
        )
    }

    /// The identifier after this one.
    #[verifier::when_used_as_spec(spec_successor)]
    pub fn successor(self) -> (id: SegmentId)
        ensures
            id == self.spec_successor(),
    {
        if self.0 == u64::MAX {
            SegmentId(0)
        } else {
            SegmentId(self.0 + 1)
        }
    }
}

impl Beveling {
    /// Before the first corner is cut.
    pub open spec fn begin(graph: VectorGraph, last_id: PointId) -> Beveling {
        Beveling {
            points: graph.points,
            segments: graph.segments,
            connected: corner_ends(graph),
            joins: Seq::empty(),
            last_id,
        }
    }

    /// The segments run between points, and ends are counted for the points that were there from the
    /// beginning.
    pub open spec fn wf(self) -> bool {
        &&& forall|i: int|
            0 <= i < self.segments.len() ==> {
                &&& (#[trigger] self.segments[i]).start < self.points.len()
                &&& self.segments[i].end < self.points.len()
            }
        &&& self.connected.len() <= self.points.len()
        &&& self.points.len() <= usize::MAX
    }

    /// Moves an end of a segment away from the point. If no other end is to be moved away from it, the
    /// point itself moves; otherwise there is a new point, which is to be joined to the old one.
    pub open spec fn move_point(self, index: int, position: DVec2) -> Beveling {
        let left = self.connected[index] - 1;
        let counted = Beveling { connected: self.connected.update(index, left), ..self };
        if left == 0 {
            Beveling { points: self.points.update(index, AnchorPoint { id: self.points[index].id, position }), ..counted }
        } else {
            Beveling {
                points: self.points.push(AnchorPoint { id: self.last_id.successor(), position }),
                joins: self.joins.push((self.points.len() as int, index)),
                last_id: self.last_id.successor(),
                ..counted
            }
        }
    }

    /// Which point the end is at after it has been moved away from the point.
    pub open spec fn moved_to(self, index: int) -> int {
        if self.connected[index] - 1 == 0 {
            index
        } else {
            self.points.len() as int
        }
    }

    /// Cuts the first segment at its end.
    pub open spec fn cut_end(self, first: int, cut: BevelCut) -> Beveling {
        let index = self.segments[first].end as int;
        if self.connected[index] > 0 && cut.cuts_end {
            let moved = self.move_point(index, cut.end);
            Beveling {
                segments: self.segments.update(
                    first,
                    Segment { end: self.moved_to(index) as usize, handles: cut.handles, ..self.segments[first] },
                ),
                ..moved
            }
        } else {
            Beveling {
                segments: self.segments.update(first, Segment { handles: cut.handles, ..self.segments[first] }),
                ..self
            }
        }
    }

    /// Cuts the second segment at its start.
    pub open spec fn cut_start(self, second: int, cut: BevelCut) -> Beveling {
        let index = self.segments[second].start as int;
        if self.connected[index] > 0 && cut.cuts_start {
            let moved = self.move_point(index, cut.start);
            Beveling {
                segments: self.segments.update(
                    second,
                    Segment { start: self.moved_to(index) as usize, handles: cut.next_handles, ..self.segments[second] },
                ),
                ..moved
            }
        } else {
            self
        }
    }

    /// Cuts the corner from one segment to another.
    pub open spec fn cut(self, first: int, second: int, cut: BevelCut) -> Beveling {
        self.cut_end(first, cut).cut_start(second, cut)
    }

    /// Whether the corner from one segment to another can be cut: they are different ones, and have
    /// not been moved to new points there yet.
    pub open spec fn can_cut(self, first: int, second: int) -> bool {
        &&& 0 <= first < self.segments.len()
        &&& 0 <= second < self.segments.len()
        &&& first != second
        &&& self.segments[first].end < self.connected.len()
        &&& self.segments[second].start < self.connected.len()
        &&& self.points.len() + 2 <= usize::MAX
    }
}

/// The place in the order after the one with the index.
pub open spec fn next_place(index: int, count: nat) -> int {
    if index == count - 1 {
        0
    } else {
        index + 1
    }
}

/// The shape after the first `n` corners in the order have been cut.
pub open spec fn cut_corners(begin: Beveling, order: Seq<int>, cuts: Seq<BevelCut>, n: nat) -> Beveling
    decreases n,
{
    if n == 0 {
        begin
    } else {
        let i = n - 1;
        cut_corners(begin, order, cuts, i as nat).cut(order[i], order[next_place(i, begin.segments.len())], cuts[i])
    }
}

/// Whether each of the first `n` corners in the order can be cut after those before it.
pub open spec fn can_cut_corners(begin: Beveling, order: Seq<int>, cuts: Seq<BevelCut>, n: nat) -> bool
    decreases n,
{
    n == 0 || {
        let i = n - 1;
        &&& can_cut_corners(begin, order, cuts, i as nat)
        &&& cut_corners(begin, order, cuts, i as nat).can_cut(order[i], order[next_place(i, begin.segments.len())])
    }
}

/// The segments with straight ones that join the pairs of points.
pub open spec fn with_joins(segments: Seq<Segment>, joins: Seq<(int, int)>, last_id: SegmentId) -> Seq<Segment>
    decreases joins.len(),
{
    if joins.len() == 0 {
        segments
    } else {
        with_joins(segments, joins.drop_last(), last_id).push(
            Segment {
                id: join_id(last_id, joins.len()),
                start: joins.last().0 as usize,
                end: joins.last().1 as usize,
                handles: BezierHandles::Linear,
                stroke: StrokeId(0),
            },
        )
    }
}

/// The identifier so many after another one.
pub open spec fn join_id(last_id: SegmentId, n: nat) -> SegmentId
    decreases n,
{
    if n == 0 {
        last_id
    } else {
        join_id(last_id, (n - 1) as nat).successor()
    }
}

/// The shape with its corners cut.
pub open spec fn beveled(graph: VectorGraph, last_point: PointId, last_segment: SegmentId, cuts: Seq<BevelCut>) -> VectorGraph {
    let done = cut_corners(Beveling::begin(graph, last_point), segment_order(graph.segments), cuts, graph.segments.len());
    VectorGraph { points: done.points, segments: with_joins(done.segments, done.joins, last_segment), ..graph }
}

/// A shape while its corners are being cut.
#[derive(Debug)]
pub struct Bevel {
    pub points: Vec<AnchorPoint>,
    pub segments: Vec<Segment>,
    pub connected: Vec<usize>,
    pub joins: Vec<(usize, usize)>,
    pub last_id: PointId,
}

impl View for Bevel {
    type V = Beveling;

    open spec fn view(&self) -> Beveling {
        Beveling {
            points: self.points@,
            segments: self.segments@,
            connected: self.connected@.map_values(|count: usize| count as int),
            joins: self.joins@.map_values(|join: (usize, usize)| (join.0 as int, join.1 as int)),
            last_id: self.last_id,
        }
    }
}

/// Counts, for each point that is a corner, the ends of segments there. The other points are left
/// out.
pub fn segments_connected_count(vector_data: &VectorData) -> (counts: Vec<usize>)
    requires
        vector_data@.wf(),
    ensures
        counts@.map_values(|count: usize| count as int) == corner_ends(vector_data@),
{
    let ghost graph = vector_data@;
    let ghost segments = graph.segments;
    let mut counts: Vec<usize> = Vec::new();
    let mut i: usize = 0;
    while i < vector_data.points.len()
        invariant
            i <= vector_data.points.len(),
            counts@.len() == i,
            forall|p: int| 0 <= p < i ==> #[trigger] counts@[p] == 0,
        decreases vector_data.points.len() - i,
    {
        counts.push(0);
        i += 1;
    }
    // A count above two says nothing more than that the point is no corner.
    let mut k: usize = 0;
    while k < vector_data.segments.len()
        invariant
            k <= vector_data.segments.len(),
            graph == vector_data@,
            graph.wf(),
            segments == graph.segments,
            counts@.len() == graph.points.len(),
            forall|p: int| #![trigger counts@[p]]
                0 <= p < counts@.len() ==> counts@[p] <= 3 && (counts@[p] < 3 ==> counts@[p] == ends_at(segments, p, k as nat)) && (counts@[p]
                    == 3 ==> ends_at(segments, p, k as nat) >= 3),
        decreases vector_data.segments.len() - k,
    {
        let segment: Segment = vector_data.segments[k];
        proof {
            assert(segments[k as int] == segment);
        }
        let at_start: usize = counts[segment.start];
        if at_start < 3 {
            counts.set(segment.start, at_start + 1);
        }
        let at_end: usize = counts[segment.end];
        if at_end < 3 {
            counts.set(segment.end, at_end + 1);
        }
        k += 1;
    }
    let mut m: usize = 0;
    while m < counts.len()
        invariant
            m <= counts.len(),
            counts@.len() == graph.points.len(),
            segments == graph.segments,
            forall|p: int| #![trigger counts@[p]]
                0 <= p < m ==> counts@[p] == (if is_corner(segments, p) {
                    2int
                } else {
                    0int
                }),
            forall|p: int| #![trigger counts@[p]]
                m <= p < counts@.len() ==> counts@[p] <= 3 && (counts@[p] < 3 ==> counts@[p] == ends_at(segments, p, segments.len())) && (
                counts@[p] == 3 ==> ends_at(segments, p, segments.len()) >= 3),
        decreases counts.len() - m,
    {
        if counts[m] != 2 {
            counts.set(m, 0);
        }
        m += 1;
    }
    proof {
        assert(counts@.map_values(|count: usize| count as int) == corner_ends(graph));
    }
    counts
}

/// The order in which the segments are looked at: along the path of the first one, then the others.
pub fn sort_segments(segments: &Vec<Segment>) -> (order: Vec<usize>)
    requires
        segments@.len() > 0,
    ensures
        order@.map_values(|index: usize| index as int) == segment_order(segments@),
        order@.len() >= segments@.len(),
        forall|i: int| 0 <= i < order@.len() ==> (#[trigger] order@[i]) < segments@.len(),
{
    let ghost n = segments@.len();
    let mut order: Vec<usize> = vec![0];
    let ghost as_int = |index: usize| index as int;
    proof {
        order_covers_the_segments(segments@);
        assert(order@.map_values(as_int) == seq![0int]);
    }
    let mut steps: usize = segments.len();
    let mut going: bool = true;
    while steps > 0 && going
        invariant
            n == segments@.len(),
            n > 0,
            steps <= n,
            as_int == (|index: usize| index as int),
            order@.len() > 0,
            forall|i: int| 0 <= i < order@.len() ==> (#[trigger] order@[i]) < n,
            follow_on(segments@, seq![0], n) == follow_on(
                segments@,
                order@.map_values(as_int),
                if going {
                    steps as nat
                } else {
                    0
                },
            ),
        decreases steps,
    {
        let ghost before = order@.map_values(as_int);
        let last: usize = order[order.len() - 1];
        proof {
            assert(before.last() == last);
        }
        let target: usize = segments[last].end;
        let ghost pred = starts_at(target as int);
        let mut found: Option<usize> = None;
        let mut i: usize = 0;
        while i < segments.len() && found.is_none()
            invariant
                i <= segments.len(),
                pred == starts_at(target as int),
                match found {
                    Some(f) => first_index(segments@, pred) == Some(f as int) && f < segments@.len(),
                    None => forall|j: int| 0 <= j < i ==> !pred(#[trigger] segments@[j]),
                },
            decreases segments.len() - i + if found.is_none() {
                1int
            } else {
                0int
            },
        {
            if segments[i].start == target {
                proof {
                    lemma_first_index_is(segments@, pred, i as int);
                }
                found = Some(i);
            } else {
                i += 1;
            }
        }
        proof {
            if found is None {
                lemma_first_index_none(segments@, pred);
            }
        }
        match found {
            Some(index) => {
                if index == 0 {
                    going = false;
                } else {
                    order.push(index);
                    proof {
                        assert(order@.map_values(as_int) == before.push(index as int));
                    }
                }
            },
            None => {
                going = false;
            },
        }
        steps -= 1;
    }
    let ghost path = order@.map_values(as_int);
    proof {
        assert(path == follow_on(segments@, seq![0], n));
    }
    if order.len() != segments.len() {
        let mut k: usize = 0;
        while k < segments.len()
            invariant
                k <= segments.len(),
                n == segments@.len(),
                as_int == (|index: usize| index as int),
                forall|i: int| 0 <= i < order@.len() ==> (#[trigger] order@[i]) < n,
                order@.map_values(as_int) == with_missing(path, k as nat),
            decreases segments.len() - k,
        {
            let ghost before = order@.map_values(as_int);
            let mut is_there: bool = false;
            let mut i: usize = 0;
            while i < order.len() && !is_there
                invariant
                    i <= order.len(),
                    as_int == (|index: usize| index as int),
                    before == order@.map_values(as_int),
                    is_there ==> before.contains(k as int),
                    !is_there ==> forall|j: int| 0 <= j < i ==> #[trigger] order@[j] != k,
                decreases order.len() - i,
            {
                if order[i] == k {
                    proof {
                        assert(before[i as int] == k);
                    }
                    is_there = true;
                }
                i += 1;
            }
            proof {
                if !is_there {
                    assert forall|j: int| 0 <= j < before.len() implies before[j] != k by {
                        assert(order@[j] != k);
                    }
                }
            }
            if !is_there {
                order.push(k);
                proof {
                    assert(order@.map_values(as_int) == before.push(k as int));
                }
            }
            k += 1;
        }
    }
    proof {
        assert(order@.map_values(|index: usize| index as int) == order@.map_values(as_int));
    }
    order
}

impl Bevel {
    /// Before the first corner is cut. New points are named by the identifiers after `last_id`.
    pub fn begin(vector_data: &VectorData, last_id: PointId) -> (bevel: Bevel)
        requires
            vector_data@.wf(),
        ensures
            bevel@ == Beveling::begin(vector_data@, last_id),
            bevel@.wf(),
    {
        let mut points: Vec<AnchorPoint> = Vec::new();
        let mut segments: Vec<Segment> = Vec::new();
        append_copies(&mut points, &vector_data.points);
        append_copies(&mut segments, &vector_data.segments);
        let connected: Vec<usize> = segments_connected_count(vector_data);
        let joins: Vec<(usize, usize)> = Vec::new();
        let length: usize = points.len();
        let bevel: Bevel = Bevel { points, segments, connected, joins, last_id };
        proof {
            assert(length == bevel.points@.len());
            assert(bevel@.joins == Seq::<(int, int)>::empty());
            assert(bevel@.points == vector_data@.points);
            assert(bevel@.segments == vector_data@.segments);
        }
        bevel
    }

    /// Updates the index so that it points at a point with the position. If nobody else will look at
    /// the index, the original point is updated. Otherwise a new point is created.
    fn create_or_modify_point(&mut self, position: DVec2, index: usize) -> (new_index: usize)
        requires
            index < old(self)@.connected.len(),
            old(self)@.connected.len() <= old(self)@.points.len(),
            old(self)@.connected[index as int] > 0,
            old(self)@.points.len() < usize::MAX,
        ensures
            final(self)@ == old(self)@.move_point(index as int, position),
            new_index == old(self)@.moved_to(index as int),
    {
        let ghost before = self@;
        let left: usize = self.connected[index] - 1;
        self.connected.set(index, left);
        proof {
            assert(self@.connected == before.connected.update(index as int, left as int));
        }
        if left == 0 {
            let id: PointId = self.points[index].id;
            self.points.set(index, AnchorPoint { id, position });
            index
        } else {
            let new_index: usize = self.points.len();
            self.last_id = self.last_id.successor();
            self.points.push(AnchorPoint { id: self.last_id, position });
            self.joins.push((new_index, index));
            proof {
                assert(self@.joins == before.joins.push((new_index as int, index as int)));
            }
            new_index
        }
    }

    /// The curves of two segments, as they are at this point.
    pub fn curves(&self, first: usize, second: usize) -> (curves: (Bezier, Bezier))
        requires
            self@.wf(),
            first < self@.segments.len(),
            second < self@.segments.len(),
        ensures
            curves.0.start == self@.points[self@.segments[first as int].start as int].position,
            curves.0.end == self@.points[self@.segments[first as int].end as int].position,
            curves.0.handles == self@.segments[first as int].handles,
            curves.1.start == self@.points[self@.segments[second as int].start as int].position,
            curves.1.end == self@.points[self@.segments[second as int].end as int].position,
            curves.1.handles == self@.segments[second as int].handles,
    {
        let a: Segment = self.segments[first];
        let b: Segment = self.segments[second];
        proof {
            assert(self@.segments[first as int] == a);
            assert(self@.segments[second as int] == b);
        }
        (
            Bezier { start: self.points[a.start].position, end: self.points[a.end].position, handles: a.handles },
            Bezier { start: self.points[b.start].position, end: self.points[b.end].position, handles: b.handles },
        )
    }

    /// Whether the corner from one segment to another can be cut.
    pub fn can_cut(&self, first: usize, second: usize) -> (result: bool)
        ensures
            result == self@.can_cut(first as int, second as int),
    {
        if !(first < self.segments.len() && second < self.segments.len() && first != second) {
            return false;
        }
        self.segments[first].end < self.connected.len() && self.segments[second].start < self.connected.len() && self.points.len()
            <= usize::MAX - 2
    }

    /// Cuts the corner from one segment to another.
    pub fn cut(&mut self, first: usize, second: usize, cut: BevelCut)
        requires
            old(self)@.wf(),
            old(self)@.can_cut(first as int, second as int),
        ensures
            final(self)@ == old(self)@.cut(first as int, second as int, cut),
            final(self)@.wf(),
            final(self)@.connected.len() == old(self)@.connected.len(),
            final(self)@.segments.len() == old(self)@.segments.len(),
    {
        let ghost before = self@;
        let mut a: Segment = self.segments[first];
        proof {
            assert(before.segments[first as int] == a);
        }
        if self.connected[a.end] > 0 && cut.cuts_end {
            a.end = self.create_or_modify_point(cut.end, a.end);
        }
        a.handles = cut.handles;
        self.segments.set(first, a);
        proof {
            assert(self@.segments == before.cut_end(first as int, cut).segments);
            assert(self@ == before.cut_end(first as int, cut));
            assert(self@.connected.len() == before.connected.len());
            assert(self.connected@.len() == self@.connected.len());
        }
        let ghost middle = self@;
        let mut b: Segment = self.segments[second];
        proof {
            assert(before.segments[second as int] == b);
        }
        if self.connected[b.start] > 0 && cut.cuts_start {
            b.start = self.create_or_modify_point(cut.start, b.start);
            b.handles = cut.next_handles;
            self.segments.set(second, b);
        }
        proof {
            assert(self@ == middle.cut_start(second as int, cut));
        }
    }
}

/// Joins the pairs of points by straight segments.
pub fn insert_new_segments(segments: &mut Vec<Segment>, joins: &Vec<(usize, usize)>, last_id: SegmentId)
    ensures
        final(segments)@ == with_joins(
            old(segments)@,
            joins@.map_values(|join: (usize, usize)| (join.0 as int, join.1 as int)),
            last_id,
        ),
{
    let ghost all = joins@.map_values(|join: (usize, usize)| (join.0 as int, join.1 as int));
    let mut id: SegmentId = last_id;
    proof {
        assert(all.take(0) == Seq::<(int, int)>::empty());
    }
    let mut i: usize = 0;
    while i < joins.len()
        invariant
            i <= joins.len(),
            all == joins@.map_values(|join: (usize, usize)| (join.0 as int, join.1 as int)),
            id == join_id(last_id, i as nat),
            segments@ == with_joins(old(segments)@, all.take(i as int), last_id),
        decreases joins.len() - i,
    {
        proof {
            assert(all.take(i + 1).drop_last() == all.take(i as int));
            assert(all.take(i + 1).last() == all[i as int]);
        }
        id = id.successor();
        let (start, end): (usize, usize) = joins[i];
        segments.push(Segment { id, start, end, handles: BezierHandles::Linear, stroke: StrokeId(0) });
        i += 1;
    }
    proof {
        assert(all.take(i as int) == all);
    }
}

/// Whether the corners are cut at all: by more than one, and with more than one segment.
pub open spec fn is_beveled(graph: VectorGraph, distance: DVec2) -> bool {
    is_less(splat_of(1), distance) && graph.segments.len() > 1
}

/// Cuts the corners of a shape by the distance, which is given in both coordinates. The `cuts` say
/// what each cut does to the two segments at it, in the order of [`sort_segments`]; each is made with
/// the shape as those before have left it. Returns `None` if a segment would be cut twice at an end.
pub fn bevel_algorithm(vector_data: VectorData, distance: DVec2, cuts: &Vec<BevelCut>, last_point: PointId, last_segment: SegmentId) -> (result: Option<VectorData>)
    requires
        vector_data@.wf(),
        cuts@.len() == vector_data@.segments.len(),
    ensures
        !is_beveled(vector_data@, distance) ==> (result matches Some(shape) && shape@ == vector_data@),
        is_beveled(vector_data@, distance) ==> match result {
            Some(shape) => {
                &&& can_cut_corners(
                    Beveling::begin(vector_data@, last_point),
                    segment_order(vector_data@.segments),
                    cuts@,
                    vector_data@.segments.len(),
                )
                &&& shape@ == beveled(vector_data@, last_point, last_segment, cuts@)
            },
            None => !can_cut_corners(
                Beveling::begin(vector_data@, last_point),
                segment_order(vector_data@.segments),
                cuts@,
                vector_data@.segments.len(),
            ),
        },
{
    if !less(splat(1), distance) || vector_data.segments.len() <= 1 {
        return Some(vector_data);
    }
    let ghost graph = vector_data@;
    let ghost begin = Beveling::begin(graph, last_point);
    let order: Vec<usize> = sort_segments(&vector_data.segments);
    let ghost list = segment_order(graph.segments);
    let mut bevel: Bevel = Bevel::begin(&vector_data, last_point);
    let count: usize = vector_data.segments.len();
    let mut i: usize = 0;
    while i < count
        invariant
            i <= count,
            count > 1,
            count == graph.segments.len(),
            graph == vector_data@,
            cuts@.len() == count,
            order@.len() >= count,
            list == segment_order(graph.segments),
            list == order@.map_values(|index: usize| index as int),
            begin == Beveling::begin(graph, last_point),
            is_beveled(graph, distance),
            bevel@ == cut_corners(begin, list, cuts@, i as nat),
            bevel@.wf(),
            can_cut_corners(begin, list, cuts@, i as nat),
        decreases count - i,
    {
        let next: usize = if i == count - 1 {
            0
        } else {
            i + 1
        };
        let first: usize = order[i];
        let second: usize = order[next];
        proof {
            assert(list[i as int] == first);
            assert(list[next as int] == second);
            assert(next == next_place(i as int, begin.segments.len()));
        }
        if !bevel.can_cut(first, second) {
            proof {
                lemma_cannot_cut(begin, list, cuts@, (i + 1) as nat, count as nat);
            }
            return None;
        }
        bevel.cut(first, second, cuts[i]);
        i += 1;
    }
    let mut shape: VectorData = vector_data;
    let mut segments: Vec<Segment> = bevel.segments;
    insert_new_segments(&mut segments, &bevel.joins, last_segment);
    shape.points = bevel.points;
    shape.segments = segments;
    Some(shape)
}

/// If one of the corners cannot be cut, not all can.
proof fn lemma_cannot_cut(begin: Beveling, order: Seq<int>, cuts: Seq<BevelCut>, n: nat, count: nat)
    requires
        n <= count,
        !can_cut_corners(begin, order, cuts, n),
    ensures
        !can_cut_corners(begin, order, cuts, count),
    decreases count - n,
{
    if n < count {
        assert(!can_cut_corners(begin, order, cuts, n + 1));
        lemma_cannot_cut(begin, order, cuts, n + 1, count);
    }
}

} // verus!
