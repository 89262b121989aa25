//! What cutting the corners of a shape keeps and adds.
use glam::DVec2;
use vstd::prelude::*;

use crate::bevel::{beveled, cut_corners, can_cut_corners, ends_at, is_corner, next_place, segment_order, with_joins, BevelCut, Beveling};
use crate::ids::{PointId, SegmentId};
use crate::vector_data::{Segment, VectorGraph};

verus! {

/// What holds while the corners of a shape are being cut.
pub open spec fn keeps_shape(graph: VectorGraph, b: Beveling) -> bool {
    let n = graph.points.len();
    &&& b.wf()
    &&& b.connected.len() == n
    &&& b.segments.len() == graph.segments.len()
    &&& b.points.len() == n + b.joins.len()
    &&& forall|k: int| 0 <= k < b.joins.len() ==> (#[trigger] b.joins[k]).0 == n + k && 0 <= b.joins[k].1 < n
    &&& forall|p: int| 0 <= p < n ==> (#[trigger] b.points[p]).id == graph.points[p].id
    &&& forall|p: int| 0 <= p < n && !is_corner(graph.segments, p) ==> #[trigger] b.connected[p] == 0
    &&& forall|p: int| 0 <= p < n && !is_corner(graph.segments, p) ==> #[trigger] b.points[p] == graph.points[p]
    &&& forall|p: int| 0 <= p < n ==> 0 <= #[trigger] b.connected[p] <= 2
}

/// Moving an end away from a corner keeps the rest of the shape.
proof fn lemma_move_point(graph: VectorGraph, b: Beveling, index: int, position: DVec2)
    requires
        keeps_shape(graph, b),
        0 <= index < graph.points.len(),
        b.connected[index] > 0,
        b.points.len() < usize::MAX,
    ensures
        keeps_shape(graph, b.move_point(index, position)),
        0 <= b.moved_to(index) < b.move_point(index, position).points.len(),
{
    let after = b.move_point(index, position);
    assert(is_corner(graph.segments, index)) by {
        if !is_corner(graph.segments, index) {
            assert(b.points[index] == graph.points[index]);
        }
    }
    assert forall|i: int| 0 <= i < after.segments.len() implies {
        &&& (#[trigger] after.segments[i]).start < after.points.len()
        &&& after.segments[i].end < after.points.len()
    } by {
        assert(b.segments[i].start < b.points.len());
    }
    assert forall|p: int| 0 <= p < graph.points.len() implies (#[trigger] after.points[p]).id == graph.points[p].id by {
        assert(b.points[p].id == graph.points[p].id);
    }
    assert forall|p: int| 0 <= p < graph.points.len() && !is_corner(graph.segments, p) implies #[trigger] after.connected[p] == 0 by {
        assert(b.connected[p] == 0);
    }
    assert forall|p: int| 0 <= p < graph.points.len() && !is_corner(graph.segments, p) implies #[trigger] after.points[p] == graph.points[p] by {
        assert(b.points[p] == graph.points[p]);
    }
    assert forall|p: int| 0 <= p < graph.points.len() implies 0 <= #[trigger] after.connected[p] <= 2 by {
        assert(0 <= b.connected[p] <= 2);
    }
    assert forall|k: int| 0 <= k < after.joins.len() implies (#[trigger] after.joins[k]).0 == graph.points.len() + k && 0
        <= after.joins[k].1 < graph.points.len() by {
        if k < b.joins.len() {
            assert(after.joins[k] == b.joins[k]);
        }
    }
}

/// Cutting the end of a segment keeps the rest of the shape.
proof fn lemma_cut_end_keeps_shape(graph: VectorGraph, b: Beveling, first: int, cut: BevelCut)
    requires
        keeps_shape(graph, b),
        0 <= first < b.segments.len(),
        b.segments[first].end < b.connected.len(),
        b.points.len() + 1 <= usize::MAX,
    ensures
        keeps_shape(graph, b.cut_end(first, cut)),
{
    let end = b.segments[first].end as int;
    let middle = b.cut_end(first, cut);
    if b.connected[end] > 0 && cut.cuts_end {
        lemma_move_point(graph, b, end, cut.end);
        let moved = b.move_point(end, cut.end);
        assert forall|i: int| 0 <= i < middle.segments.len() implies {
            &&& (#[trigger] middle.segments[i]).start < middle.points.len()
            &&& middle.segments[i].end < middle.points.len()
        } by {
            assert(moved.segments[i].start < moved.points.len());
        }
        assert(middle.points == moved.points && middle.connected == moved.connected && middle.joins == moved.joins);
    } else {
        assert forall|i: int| 0 <= i < middle.segments.len() implies {
            &&& (#[trigger] middle.segments[i]).start < middle.points.len()
            &&& middle.segments[i].end < middle.points.len()
        } by {
            assert(b.segments[i].start < b.points.len());
        }
    }
}

/// Cutting a corner keeps the rest of the shape.
proof fn lemma_cut_keeps_shape(graph: VectorGraph, b: Beveling, first: int, second: int, cut: BevelCut)
    requires
        keeps_shape(graph, b),
        b.can_cut(first, second),
    ensures
        keeps_shape(graph, b.cut(first, second, cut)),
{
    let middle = b.cut_end(first, cut);
    lemma_cut_end_keeps_shape(graph, b, first, cut);
    let start = middle.segments[second].start as int;
    assert(middle.segments[second] == b.segments[second]);
    let after = b.cut(first, second, cut);
    if middle.connected[start] > 0 && cut.cuts_start {
        lemma_move_point(graph, middle, start, cut.start);
        let moved = middle.move_point(start, cut.start);
        assert forall|i: int| 0 <= i < after.segments.len() implies {
            &&& (#[trigger] after.segments[i]).start < after.points.len()
            &&& after.segments[i].end < after.points.len()
        } by {
            assert(moved.segments[i].start < moved.points.len());
        }
        assert(after.points == moved.points && after.connected == moved.connected && after.joins == moved.joins);
    }
    assert(keeps_shape(graph, after));
}

/// Cutting the corners keeps the rest of the shape.
proof fn lemma_corners_keep_shape(graph: VectorGraph, last_id: PointId, order: Seq<int>, cuts: Seq<BevelCut>, n: nat)
    requires
        graph.wf(),
        graph.points.len() <= usize::MAX,
        can_cut_corners(Beveling::begin(graph, last_id), order, cuts, n),
    ensures
        keeps_shape(graph, cut_corners(Beveling::begin(graph, last_id), order, cuts, n)),
    decreases n,
{
    let begin = Beveling::begin(graph, last_id);
    if n > 0 {
        let i = (n - 1) as nat;
        lemma_corners_keep_shape(graph, last_id, order, cuts, i);
        let before = cut_corners(begin, order, cuts, i);
        lemma_cut_keeps_shape(graph, before, order[n - 1], order[next_place(n - 1, begin.segments.len())], cuts[n - 1]);
    } else {
        assert forall|i: int| 0 <= i < begin.segments.len() implies {
            &&& (#[trigger] begin.segments[i]).start < begin.points.len()
            &&& begin.segments[i].end < begin.points.len()
        } by {
            assert(graph.segments[i].start < graph.points.len());
        }
    }
}

/// The joins come after the segments.
proof fn lemma_with_joins(segments: Seq<Segment>, joins: Seq<(int, int)>, last_id: SegmentId)
    ensures
        with_joins(segments, joins, last_id).len() == segments.len() + joins.len(),
        forall|i: int| 0 <= i < segments.len() ==> #[trigger] with_joins(segments, joins, last_id)[i] == segments[i],
        forall|k: int|
            0 <= k < joins.len() ==> {
                &&& (#[trigger] with_joins(segments, joins, last_id)[segments.len() + k]).start == joins[k].0 as usize
                &&& with_joins(segments, joins, last_id)[segments.len() + k].end == joins[k].1 as usize
            },
    decreases joins.len(),
{
    if joins.len() > 0 {
        let rest = joins.drop_last();
        lemma_with_joins(segments, rest, last_id);
        let before = with_joins(segments, rest, last_id);
        let after = with_joins(segments, joins, last_id);
        assert forall|i: int| 0 <= i < segments.len() implies #[trigger] after[i] == segments[i] by {
            assert(before[i] == segments[i]);
        }
        assert forall|k: int| 0 <= k < joins.len() implies {
            &&& (#[trigger] after[segments.len() + k]).start == joins[k].0 as usize
            &&& after[segments.len() + k].end == joins[k].1 as usize
        } by {
            if k < rest.len() {
                assert(after[segments.len() + k] == before[segments.len() + k]);
                assert(rest[k] == joins[k]);
            }
        }
    }
}

/// A beveled shape has one segment more for each point more; its segments run between its points, and
/// its points that were no corners are where they were.
pub proof fn bevel_keeps_what_is_no_corner(graph: VectorGraph, last_point: PointId, last_segment: SegmentId, cuts: Seq<BevelCut>)
    requires
        graph.wf(),
        graph.points.len() <= usize::MAX,
        can_cut_corners(
            Beveling::begin(graph, last_point),
            segment_order(graph.segments),
            cuts,
            graph.segments.len(),
        ),
    ensures
        beveled(graph, last_point, last_segment, cuts).wf(),
        beveled(graph, last_point, last_segment, cuts).points.len() - graph.points.len() == beveled(
            graph,
            last_point,
            last_segment,
            cuts,
        ).segments.len() - graph.segments.len(),
        beveled(graph, last_point, last_segment, cuts).points.len() >= graph.points.len(),
        forall|p: int|
            0 <= p < graph.points.len() && !is_corner(graph.segments, p) ==> #[trigger] beveled(
                graph,
                last_point,
                last_segment,
                cuts,
            ).points[p] == graph.points[p],
{
    let begin = Beveling::begin(graph, last_point);
    let order = segment_order(graph.segments);
    lemma_corners_keep_shape(graph, last_point, order, cuts, graph.segments.len());
    let done = cut_corners(begin, order, cuts, graph.segments.len());
    lemma_with_joins(done.segments, done.joins, last_segment);
    let result = beveled(graph, last_point, last_segment, cuts);
    assert forall|i: int| 0 <= i < result.segments.len() implies {
        &&& (#[trigger] result.segments[i]).start < result.points.len()
        &&& result.segments[i].end < result.points.len()
    } by {
        if i < done.segments.len() {
            assert(done.segments[i].start < done.points.len());
        } else {
            let k = i - done.segments.len();
            assert(result.segments[done.segments.len() + k].start == done.joins[k].0 as usize);
            assert(done.joins[k].0 == graph.points.len() + k);
        }
    }
}

/// How many ends of the first `n` segments are at the point, without those that have been dealt with.
spec fn ends_left(segments: Seq<Segment>, point: int, ends: Set<int>, starts: Set<int>, n: nat) -> nat
    decreases n,
{
    if n == 0 {
        0
    } else {
        let i = n - 1;
        ends_left(segments, point, ends, starts, i as nat) + (if segments[i].start == point && !starts.contains(i) {
            1nat
        } else {
            0
        }) + (if segments[i].end == point && !ends.contains(i) {
            1nat
        } else {
            0
        })
    }
}

proof fn lemma_ends_left_at_first(segments: Seq<Segment>, point: int, n: nat)
    ensures
        ends_left(segments, point, Set::empty(), Set::empty(), n) == ends_at(segments, point, n),
    decreases n,
{
    if n > 0 {
        lemma_ends_left_at_first(segments, point, (n - 1) as nat);
    }
}

/// Dealing with an end of a segment leaves one less at its point.
proof fn lemma_end_dealt_with(segments: Seq<Segment>, point: int, ends: Set<int>, starts: Set<int>, s: int, n: nat)
    requires
        !ends.contains(s),
    ensures
        ends_left(segments, point, ends.insert(s), starts, n) + (if 0 <= s < n && segments[s].end == point {
            1nat
        } else {
            0
        }) == ends_left(segments, point, ends, starts, n),
    decreases n,
{
    if n > 0 {
        lemma_end_dealt_with(segments, point, ends, starts, s, (n - 1) as nat);
    }
}

/// Dealing with a start of a segment leaves one less at its point.
proof fn lemma_start_dealt_with(segments: Seq<Segment>, point: int, ends: Set<int>, starts: Set<int>, s: int, n: nat)
    requires
        !starts.contains(s),
    ensures
        ends_left(segments, point, ends, starts.insert(s), n) + (if 0 <= s < n && segments[s].start == point {
            1nat
        } else {
            0
        }) == ends_left(segments, point, ends, starts, n),
    decreases n,
{
    if n > 0 {
        lemma_start_dealt_with(segments, point, ends, starts, s, (n - 1) as nat);
    }
}

/// When all ends have been dealt with, none is left.
proof fn lemma_nothing_left(segments: Seq<Segment>, point: int, ends: Set<int>, starts: Set<int>, n: nat)
    requires
        forall|s: int| 0 <= s < n ==> #[trigger] ends.contains(s),
        forall|s: int| 0 <= s < n ==> #[trigger] starts.contains(s),
    ensures
        ends_left(segments, point, ends, starts, n) == 0,
    decreases n,
{
    if n > 0 {
        assert(ends.contains(n - 1) && starts.contains(n - 1));
        lemma_nothing_left(segments, point, ends, starts, (n - 1) as nat);
    }
}

/// How many of the first `n` points are corners.
pub open spec fn corner_count(segments: Seq<Segment>, n: nat) -> nat
    decreases n,
{
    if n == 0 {
        0
    } else {
        corner_count(segments, (n - 1) as nat) + if is_corner(segments, n - 1) {
            1nat
        } else {
            0
        }
    }
}

/// How many of the first `n` points are corners of which an end has been moved away.
spec fn opened_count(segments: Seq<Segment>, connected: Seq<int>, n: nat) -> nat
    decreases n,
{
    if n == 0 {
        0
    } else {
        opened_count(segments, connected, (n - 1) as nat) + if is_corner(segments, n - 1) && connected[n - 1] < 2 {
            1nat
        } else {
            0
        }
    }
}

/// Moving the first end away from a corner opens it.
proof fn lemma_opened_update(segments: Seq<Segment>, connected: Seq<int>, index: int, n: nat)
    requires
        0 <= index < connected.len(),
        n <= connected.len(),
        is_corner(segments, index),
        connected[index] == 1 || connected[index] == 2,
    ensures
        opened_count(segments, connected.update(index, connected[index] - 1), n) == opened_count(segments, connected, n) + (if index
            < n && connected[index] == 2 {
            1nat
        } else {
            0
        }),
    decreases n,
{
    if n > 0 {
        lemma_opened_update(segments, connected, index, (n - 1) as nat);
    }
}

proof fn lemma_all_opened(segments: Seq<Segment>, connected: Seq<int>, n: nat)
    requires
        n <= connected.len(),
        forall|p: int| 0 <= p < n && is_corner(segments, p) ==> #[trigger] connected[p] == 0,
    ensures
        opened_count(segments, connected, n) == corner_count(segments, n),
    decreases n,
{
    if n > 0 {
        lemma_all_opened(segments, connected, (n - 1) as nat);
    }
}

proof fn lemma_none_opened(segments: Seq<Segment>, connected: Seq<int>, n: nat)
    requires
        n <= connected.len(),
        forall|p: int| 0 <= p < n && is_corner(segments, p) ==> #[trigger] connected[p] == 2,
    ensures
        opened_count(segments, connected, n) == 0,
    decreases n,
{
    if n > 0 {
        lemma_none_opened(segments, connected, (n - 1) as nat);
    }
}

/// What holds of the counts while the corners are being cut, all of them, with some ends and starts
/// dealt with.
spec fn counts_ends(graph: VectorGraph, b: Beveling, ends: Set<int>, starts: Set<int>) -> bool {
    let n = graph.segments.len();
    &&& forall|p: int|
        0 <= p < graph.points.len() && is_corner(graph.segments, p) ==> #[trigger] b.connected[p] == ends_left(
            graph.segments,
            p,
            ends,
            starts,
            n,
        )
    &&& forall|s: int| 0 <= s < n && !ends.contains(s) ==> (#[trigger] b.segments[s]).end == graph.segments[s].end
    &&& forall|s: int| 0 <= s < n && !starts.contains(s) ==> (#[trigger] b.segments[s]).start == graph.segments[s].start
    &&& b.joins.len() == opened_count(graph.segments, b.connected, graph.points.len())
}

proof fn lemma_cut_end_counts(graph: VectorGraph, b: Beveling, ends: Set<int>, starts: Set<int>, first: int, cut: BevelCut)
    requires
        graph.wf(),
        keeps_shape(graph, b),
        counts_ends(graph, b, ends, starts),
        0 <= first < graph.segments.len(),
        !ends.contains(first),
        cut.cuts_end,
        b.points.len() < usize::MAX,
    ensures
        counts_ends(graph, b.cut_end(first, cut), ends.insert(first), starts),
{
    let n = graph.segments.len();
    let index = b.segments[first].end as int;
    let after = b.cut_end(first, cut);
    assert(graph.segments[first].end < graph.points.len());
    assert(index == graph.segments[first].end);
    assert forall|p: int| 0 <= p < graph.points.len() && is_corner(graph.segments, p) implies #[trigger] after.connected[p] == ends_left(
        graph.segments,
        p,
        ends.insert(first),
        starts,
        n,
    ) by {
        lemma_end_dealt_with(graph.segments, p, ends, starts, first, n);
        assert(b.connected[p] == ends_left(graph.segments, p, ends, starts, n));
        if p == index {
            assert(b.connected[index] > 0);
        }
    }
    if is_corner(graph.segments, index) {
        lemma_end_dealt_with(graph.segments, index, ends, starts, first, n);
        assert(0 <= b.connected[index] <= 2);
        lemma_opened_update(graph.segments, b.connected, index, graph.points.len());
    } else {
        assert(b.connected[index] == 0);
    }
    assert forall|s: int| 0 <= s < n && !ends.insert(first).contains(s) implies (#[trigger] after.segments[s]).end == graph.segments[s].end by {
        assert(b.segments[s].end == graph.segments[s].end);
    }
    assert forall|s: int| 0 <= s < n && !starts.contains(s) implies (#[trigger] after.segments[s]).start == graph.segments[s].start by {
        assert(b.segments[s].start == graph.segments[s].start);
    }
}

proof fn lemma_cut_start_counts(graph: VectorGraph, b: Beveling, ends: Set<int>, starts: Set<int>, second: int, cut: BevelCut)
    requires
        graph.wf(),
        keeps_shape(graph, b),
        counts_ends(graph, b, ends, starts),
        0 <= second < graph.segments.len(),
        !starts.contains(second),
        cut.cuts_start,
        b.points.len() < usize::MAX,
    ensures
        counts_ends(graph, b.cut_start(second, cut), ends, starts.insert(second)),
{
    let n = graph.segments.len();
    let index = b.segments[second].start as int;
    let after = b.cut_start(second, cut);
    assert(graph.segments[second].start < graph.points.len());
    assert(index == graph.segments[second].start);
    assert forall|p: int| 0 <= p < graph.points.len() && is_corner(graph.segments, p) implies #[trigger] after.connected[p] == ends_left(
        graph.segments,
        p,
        ends,
        starts.insert(second),
        n,
    ) by {
        lemma_start_dealt_with(graph.segments, p, ends, starts, second, n);
        assert(b.connected[p] == ends_left(graph.segments, p, ends, starts, n));
        if p == index {
            assert(b.connected[index] > 0);
        }
    }
    if is_corner(graph.segments, index) {
        lemma_start_dealt_with(graph.segments, index, ends, starts, second, n);
        assert(0 <= b.connected[index] <= 2);
        lemma_opened_update(graph.segments, b.connected, index, graph.points.len());
    } else {
        assert(b.connected[index] == 0);
    }
    assert forall|s: int| 0 <= s < n && !ends.contains(s) implies (#[trigger] after.segments[s]).end == graph.segments[s].end by {
        assert(b.segments[s].end == graph.segments[s].end);
    }
    assert forall|s: int| 0 <= s < n && !starts.insert(second).contains(s) implies (#[trigger] after.segments[s]).start
        == graph.segments[s].start by {
        assert(b.segments[s].start == graph.segments[s].start);
    }
}

/// Whether the order holds each segment once.
pub open spec fn is_permutation(order: Seq<int>, n: nat) -> bool {
    &&& order.len() >= n
    &&& forall|i: int| 0 <= i < n ==> 0 <= #[trigger] order[i] < n
    &&& forall|i: int, j: int| 0 <= i < j < n ==> #[trigger] order[i] != #[trigger] order[j]
}

/// The segments whose end has been dealt with after so many cuts.
spec fn ended(order: Seq<int>, i: int) -> Set<int> {
    order.take(i).to_set()
}

/// The segments whose start has been dealt with after so many cuts.
spec fn started(order: Seq<int>, i: int, n: nat) -> Set<int>
    decreases i,
{
    if i <= 0 {
        Set::empty()
    } else {
        started(order, i - 1, n).insert(order[next_place(i - 1, n)])
    }
}

proof fn lemma_started(order: Seq<int>, i: int, n: nat)
    requires
        0 <= i <= n,
    ensures
        forall|s: int| #[trigger]
            started(order, i, n).contains(s) <==> exists|k: int| 0 <= k < i && s == #[trigger] order[next_place(k, n)],
    decreases i,
{
    if i > 0 {
        lemma_started(order, i - 1, n);
        assert forall|s: int| #[trigger] started(order, i, n).contains(s) implies exists|k: int| 0 <= k < i && s == #[trigger] order[next_place(
            k,
            n,
        )] by {
            if s == order[next_place(i - 1, n)] {
                assert(0 <= i - 1 < i);
            } else {
                assert(started(order, i - 1, n).contains(s));
                let k = choose|k: int| 0 <= k < i - 1 && s == #[trigger] order[next_place(k, n)];
                assert(0 <= k < i);
            }
        }
        assert forall|s: int| (exists|k: int| 0 <= k < i && s == #[trigger] order[next_place(k, n)]) implies #[trigger] started(order, i, n).contains(s) by {
            let k = choose|k: int| 0 <= k < i && s == #[trigger] order[next_place(k, n)];
            if k < i - 1 {
                assert(started(order, i - 1, n).contains(s));
            }
        }
    }
}

/// Cutting all corners along an order that holds each segment once: it can be done, and the counts
/// hold.
proof fn lemma_counts(graph: VectorGraph, last_id: PointId, order: Seq<int>, cuts: Seq<BevelCut>, i: nat)
    requires
        graph.wf(),
        graph.segments.len() > 1,
        graph.points.len() + 2 * graph.segments.len() <= usize::MAX,
        is_permutation(order, graph.segments.len()),
        cuts.len() == graph.segments.len(),
        forall|k: int| 0 <= k < cuts.len() ==> (#[trigger] cuts[k]).cuts_end && cuts[k].cuts_start,
        i <= graph.segments.len(),
    ensures
        can_cut_corners(Beveling::begin(graph, last_id), order, cuts, i),
        keeps_shape(graph, cut_corners(Beveling::begin(graph, last_id), order, cuts, i)),
        cut_corners(Beveling::begin(graph, last_id), order, cuts, i).points.len() <= graph.points.len() + 2 * i,
        counts_ends(
            graph,
            cut_corners(Beveling::begin(graph, last_id), order, cuts, i),
            ended(order, i as int),
            started(order, i as int, graph.segments.len()),
        ),
    decreases i,
{
    let n = graph.segments.len();
    let begin = Beveling::begin(graph, last_id);
    if i == 0 {
        assert(ended(order, 0) == Set::<int>::empty());
        assert forall|p: int| 0 <= p < graph.points.len() && is_corner(graph.segments, p) implies #[trigger] begin.connected[p] == ends_left(
            graph.segments,
            p,
            Set::empty(),
            Set::empty(),
            n,
        ) by {
            lemma_ends_left_at_first(graph.segments, p, n);
        }
        lemma_none_opened(graph.segments, begin.connected, graph.points.len());
        lemma_corners_keep_shape(graph, last_id, order, cuts, 0);
    } else {
        let k = i - 1;
        lemma_counts(graph, last_id, order, cuts, k as nat);
        let before = cut_corners(begin, order, cuts, k as nat);
        let first = order[k];
        let second = order[next_place(k, n)];
        let ends = ended(order, k);
        let starts = started(order, k, n);
        assert(!ends.contains(first)) by {
            if ends.contains(first) {
                assert(order.take(k).contains(first));
                let j = choose|j: int| 0 <= j < order.take(k).len() && order.take(k)[j] == first;
                assert(order[j] == order[k]);
            }
        }
        lemma_started(order, k, n);
        assert(!starts.contains(second)) by {
            if starts.contains(second) {
                let j = choose|j: int| 0 <= j < k && second == #[trigger] order[next_place(j, n)];
                assert(next_place(j, n) != next_place(k, n));
                assert(order[next_place(j, n)] != order[next_place(k, n)]);
            }
        }
        assert(first != second) by {
            assert(k != next_place(k, n));
        }
        assert(0 <= first < n && 0 <= second < n);
        assert(before.segments[first].end == graph.segments[first].end);
        assert(before.segments[second].start == graph.segments[second].start);
        assert(graph.segments[first].end < graph.points.len());
        assert(graph.segments[second].start < graph.points.len());
        assert(before.can_cut(first, second));
        lemma_cut_keeps_shape(graph, before, first, second, cuts[k]);
        assert(cuts[k].cuts_end && cuts[k].cuts_start);
        lemma_cut_end_counts(graph, before, ends, starts, first, cuts[k]);
        let middle = before.cut_end(first, cuts[k]);
        assert(keeps_shape(graph, middle)) by {
            lemma_cut_end_keeps_shape(graph, before, first, cuts[k]);
        }
        lemma_cut_start_counts(graph, middle, ends.insert(first), starts, second, cuts[k]);
        assert(ended(order, i as int) == ends.insert(first)) by {
            assert(order.take(i as int) == order.take(k).push(first));
            assert forall|s: int| order.take(i as int).to_set().contains(s) <==> ends.insert(first).contains(s) by {
                if order.take(i as int).contains(s) {
                    let j = choose|j: int| 0 <= j < order.take(i as int).len() && order.take(i as int)[j] == s;
                    if j < k {
                        assert(order.take(k)[j] == s);
                    }
                }
                if order.take(k).contains(s) {
                    let j = choose|j: int| 0 <= j < order.take(k).len() && order.take(k)[j] == s;
                    assert(order.take(i as int)[j] == s);
                }
                assert(order.take(i as int)[k] == first);
            }
        }
    }
}

/// If every cut is made and the order holds each segment once, each corner becomes two points with a
/// new segment between them: there are as many points and as many segments more as there are corners.
pub proof fn bevel_opens_each_corner_once(graph: VectorGraph, last_point: PointId, last_segment: SegmentId, cuts: Seq<BevelCut>)
    requires
        graph.wf(),
        graph.segments.len() > 1,
        graph.points.len() + 2 * graph.segments.len() <= usize::MAX,
        is_permutation(segment_order(graph.segments), graph.segments.len()),
        cuts.len() == graph.segments.len(),
        forall|k: int| 0 <= k < cuts.len() ==> (#[trigger] cuts[k]).cuts_end && cuts[k].cuts_start,
    ensures
        can_cut_corners(Beveling::begin(graph, last_point), segment_order(graph.segments), cuts, graph.segments.len()),
        beveled(graph, last_point, last_segment, cuts).points.len() == graph.points.len() + corner_count(
            graph.segments,
            graph.points.len(),
        ),
        beveled(graph, last_point, last_segment, cuts).segments.len() == graph.segments.len() + corner_count(
            graph.segments,
            graph.points.len(),
        ),
{
    let n = graph.segments.len();
    let order = segment_order(graph.segments);
    lemma_counts(graph, last_point, order, cuts, n);
    let done = cut_corners(Beveling::begin(graph, last_point), order, cuts, n);
    let ends = ended(order, n as int);
    let starts = started(order, n as int, n);
    let used = order.take(n as int);
    assert forall|s: int| 0 <= s < n implies #[trigger] ends.contains(s) by {
        lemma_all_used(used, n);
        assert(used.contains(s));
    }
    lemma_started(order, n as int, n);
    assert forall|s: int| 0 <= s < n implies #[trigger] starts.contains(s) by {
        lemma_all_used(used, n);
        assert(used.contains(s));
        let j = choose|j: int| 0 <= j < used.len() && used[j] == s;
        let k = if j == 0 {
            n - 1
        } else {
            j - 1
        };
        assert(next_place(k, n) == j);
        assert(s == order[next_place(k, n)]);
    }
    assert forall|p: int| 0 <= p < graph.points.len() && is_corner(graph.segments, p) implies #[trigger] done.connected[p] == 0 by {
        lemma_nothing_left(graph.segments, p, ends, starts, n);
    }
    lemma_all_opened(graph.segments, done.connected, graph.points.len());
    lemma_with_joins(done.segments, done.joins, last_segment);
}

/// A sequence of `n` different numbers below `n` holds each of them.
proof fn lemma_all_used(used: Seq<int>, n: nat)
    requires
        used.len() == n,
        forall|i: int| 0 <= i < n ==> 0 <= #[trigger] used[i] < n,
        forall|i: int, j: int| 0 <= i < j < n ==> #[trigger] used[i] != #[trigger] used[j],
    ensures
        forall|s: int| 0 <= s < n ==> #[trigger] used.contains(s),
{
    used.unique_seq_to_set();
    let all = Set::new(|s: int| 0 <= s < n);
    assert(all == vstd::set_lib::set_int_range(0, n as int));
    vstd::set_lib::lemma_int_range(0, n as int);
    assert forall|s: int| #[trigger] used.to_set().contains(s) implies all.contains(s) by {
        assert(used.contains(s));
    }
    vstd::set_lib::lemma_subset_equality(used.to_set(), all);
    assert forall|s: int| 0 <= s < n implies #[trigger] used.contains(s) by {
        assert(all.contains(s));
        assert(used.to_set().contains(s));
    }
}

} // verus!
