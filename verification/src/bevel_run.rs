//! The run over the corners of a shape that are cut, one after the other.
//!
//! Between the steps of the run it is found out, of the two segments at the next corner, whether they are straight,
//! how far the corner is to be cut, and where on a segment a share of its length is reached.
use glam::{DAffine2, DVec2};
use vstd::prelude::*;

use crate::bevel::{can_cut_corners, cut_corners, next_place, segment_order, sort_segments, Bevel, BevelCut, Beveling};
use crate::chamfer::{
    corner_cut, cut_corner, handles_to_segment, raw_segment, segment_of_curve, share_of, split_share, straightened, BevelCorner, BevelLengths, CornerDistances,
};
use crate::geometry::zero;
use crate::ids::PointId;
use crate::paths::{is_perimeter, perimeter, PathSegment};
use crate::vector_data::{Bezier, VectorData, VectorGraph};

verus! {

impl Beveling {
    /// The curve of a segment, as it is at this point.
    pub open spec fn curve(self, segment: int) -> Bezier {
        Bezier {
            start: self.points[self.segments[segment].start as int].position,
            end: self.points[self.segments[segment].end as int].position,
            handles: self.segments[segment].handles,
        }
    }
}

/// The next corner of a run, measured: whether its segments are straight, the segments under the transform, what the
/// cut depends on, and by how much each segment is cut.
#[derive(Clone, Copy, Debug)]
pub struct MeasuredCorner {
    pub linear: (bool, bool),
    pub segments: (PathSegment, PathSegment),
    pub corner: BevelCorner,
    pub distances: CornerDistances,
}

/// The share of a segment's length that a cut takes.
pub open spec fn share_in(cut: Option<(DVec2, DVec2)>) -> Option<DVec2> {
    match cut {
        Some((distance, length)) => Some(split_share(distance, length)),
        None => None,
    }
}

/// On which segment the parameter for which share of its length is to be found.
pub type Sought = Option<(PathSegment, DVec2)>;

impl MeasuredCorner {
    /// Where the corner is cut: on the first segment, from its end on, and on the second one.
    pub open spec fn spec_sought(self) -> (Sought, Sought) {
        (
            match share_in(self.distances.end) {
                Some(share) => Some((self.segments.0.reverse(), share)),
                None => None,
            },
            match share_in(self.distances.start) {
                Some(share) => Some((self.segments.1, share)),
                None => None,
            },
        )
    }

    /// Where the corner is cut: on the first segment, from its end on, and on the second one, as far as they are cut.
    pub fn sought(&self) -> (sought: (Sought, Sought))
        ensures
            sought == self.spec_sought(),
    {
        (
            match self.distances.end {
                Some((distance, length)) => Some((self.segments.0.reverse(), share_of(distance, length))),
                None => None,
            },
            match self.distances.start {
                Some((distance, length)) => Some((self.segments.1, share_of(distance, length))),
                None => None,
            },
        )
    }
}

/// A run, as mathematical values: the shape and the lengths as the cuts so far have left them, the order of the
/// segments, and the cuts.
pub struct Run {
    pub bevel: Beveling,
    pub lengths: BevelLengths,
    pub order: Seq<int>,
    pub transform: DAffine2,
    pub cuts: Seq<BevelCut>,
}

impl Run {
    /// Before the first corner.
    pub open spec fn begin(graph: VectorGraph, transform: DAffine2, last_point: PointId) -> Run {
        Run {
            bevel: Beveling::begin(graph, last_point),
            lengths: BevelLengths { first_original: zero(), first: zero(), previous_original: zero(), previous: zero() },
            order: segment_order(graph.segments),
            transform,
            cuts: Seq::empty(),
        }
    }

    /// There are corners, and an order of the segments.
    pub open spec fn wf(self) -> bool {
        &&& self.bevel.wf()
        &&& self.bevel.segments.len() > 1
        &&& self.order.len() >= self.bevel.segments.len()
        &&& forall|i: int| 0 <= i < self.order.len() ==> 0 <= #[trigger] self.order[i] < self.bevel.segments.len()
        &&& self.cuts.len() <= self.bevel.segments.len()
    }

    /// Whether there is a corner left.
    pub open spec fn goes_on(self) -> bool {
        self.cuts.len() < self.bevel.segments.len()
    }

    /// The first segment at the next corner.
    pub open spec fn first(self) -> int {
        self.order[self.cuts.len() as int]
    }

    /// The second segment at the next corner.
    pub open spec fn second(self) -> int {
        self.order[next_place(self.cuts.len() as int, self.bevel.segments.len())]
    }

    /// Whether the next corner can be cut.
    pub open spec fn can_cut(self) -> bool {
        self.goes_on() && self.bevel.can_cut(self.first(), self.second())
    }

    /// Whether a corner is the next one, measured as the cuts so far have left it. Whether the start of its second
    /// segment is to be cut is read after the end of the first has been cut or not.
    pub open spec fn is_next(self, measured: MeasuredCorner) -> bool {
        let corner = measured.corner;
        let probe = self.lengths.distances(BevelCorner { open_start: false, ..corner });
        &&& self.can_cut()
        &&& measured.segments.0 == segment_of_curve(self.bevel.curve(self.first()), self.transform, measured.linear.0)
        &&& measured.segments.1 == segment_of_curve(self.bevel.curve(self.second()), self.transform, measured.linear.1)
        &&& is_perimeter(measured.segments.0, corner.length)
        &&& is_perimeter(measured.segments.1, corner.next_length)
        &&& corner.index == self.cuts.len()
        &&& corner.count == self.bevel.segments.len()
        &&& corner.open_end == self.bevel.is_open_end(self.first())
        &&& corner.open_start == self.bevel.is_open_start(self.first(), self.second(), probe.end is Some)
        &&& measured.distances == self.lengths.distances(corner)
    }

    /// The cut of the next corner, with the parameters where its segments are cut.
    pub open spec fn cut_of(self, measured: MeasuredCorner, places: (Option<DVec2>, Option<DVec2>)) -> BevelCut {
        corner_cut(
            self.bevel.curve(self.first()),
            self.bevel.curve(self.second()),
            self.transform,
            measured.linear,
            places,
        )
    }

    /// The run after the next corner.
    pub open spec fn step(self, measured: MeasuredCorner, places: (Option<DVec2>, Option<DVec2>)) -> Run {
        let cut = self.cut_of(measured, places);
        Run {
            bevel: self.bevel.cut(self.first(), self.second(), cut),
            lengths: self.lengths.after(measured.corner),
            cuts: self.cuts.push(cut),
            ..self
        }
    }

    /// Whether the run is one over the corners of a shape: its shape is what the cuts so far make of that.
    pub open spec fn is_run_over(self, graph: VectorGraph, last_point: PointId) -> bool {
        let begin = Beveling::begin(graph, last_point);
        &&& self.order == segment_order(graph.segments)
        &&& self.bevel.segments.len() == graph.segments.len()
        &&& self.bevel == cut_corners(begin, self.order, self.cuts, self.cuts.len())
        &&& can_cut_corners(begin, self.order, self.cuts, self.cuts.len())
    }
}

/// What cuts make of a shape depends only on those that are made.
proof fn lemma_cuts_so_far(begin: Beveling, order: Seq<int>, cuts: Seq<BevelCut>, more: Seq<BevelCut>, n: nat)
    requires
        n <= cuts.len(),
        cuts.is_prefix_of(more),
    ensures
        cut_corners(begin, order, more, n) == cut_corners(begin, order, cuts, n),
        can_cut_corners(begin, order, more, n) == can_cut_corners(begin, order, cuts, n),
    decreases n,
{
    if n > 0 {
        lemma_cuts_so_far(begin, order, cuts, more, (n - 1) as nat);
        assert(more[n - 1] == cuts[n - 1]);
    }
}

/// Each step of a run over the corners of a shape leads to one: so when no corner is left, the run has cut all corners
/// in their order, each with the shape as those before have left it.
pub proof fn steps_stay_in_the_run(run: Run, graph: VectorGraph, last_point: PointId, measured: MeasuredCorner, places: (Option<DVec2>, Option<DVec2>))
    requires
        run.wf(),
        run.is_run_over(graph, last_point),
        run.is_next(measured),
    ensures
        run.step(measured, places).is_run_over(graph, last_point),
{
    let begin = Beveling::begin(graph, last_point);
    let after = run.step(measured, places);
    let n = run.cuts.len();
    lemma_cuts_so_far(begin, run.order, run.cuts, after.cuts, n);
    assert(after.cuts[n as int] == run.cut_of(measured, places));
}

/// A run over the corners of a shape.
#[derive(Debug)]
pub struct BevelRun {
    pub bevel: Bevel,
    pub lengths: BevelLengths,
    pub order: Vec<usize>,
    pub transform: DAffine2,
    pub cuts: Vec<BevelCut>,
}

impl View for BevelRun {
    type V = Run;

    open spec fn view(&self) -> Run {
        Run {
            bevel: self.bevel@,
            lengths: self.lengths,
            order: self.order@.map_values(|index: usize| index as int),
            transform: self.transform,
            cuts: self.cuts@,
        }
    }
}

impl BevelRun {
    /// Before the first corner. New points are named by the identifiers after `last_point`.
    pub fn begin(vector_data: &VectorData, transform: DAffine2, last_point: PointId) -> (run: BevelRun)
        requires
            vector_data@.wf(),
            vector_data@.segments.len() > 1,
        ensures
            run@ == Run::begin(vector_data@, transform, last_point),
            run@.wf(),
            run@.is_run_over(vector_data@, last_point),
    {
        let order: Vec<usize> = sort_segments(&vector_data.segments);
        let bevel: Bevel = Bevel::begin(vector_data, last_point);
        let run: BevelRun = BevelRun { bevel, lengths: BevelLengths::begin(), order, transform, cuts: Vec::new() };
        proof {
            assert(run@.cuts == Seq::<BevelCut>::empty());
            assert forall|i: int| 0 <= i < run@.order.len() implies 0 <= #[trigger] run@.order[i] < run@.bevel.segments.len() by {
                assert(run@.order[i] == run.order@[i]);
            }
        }
        run
    }

    /// The segments at the next corner.
    fn next_segments(&self) -> (pair: (usize, usize))
        requires
            self@.wf(),
            self@.goes_on(),
        ensures
            pair.0 == self@.first(),
            pair.1 == self@.second(),
            pair.0 < self@.bevel.segments.len(),
            pair.1 < self@.bevel.segments.len(),
    {
        let index: usize = self.cuts.len();
        let next: usize = if index == self.bevel.segments.len() - 1 {
            0
        } else {
            index + 1
        };
        proof {
            assert(self@.order[index as int] == self.order@[index as int]);
            assert(self@.order[next as int] == self.order@[next as int]);
        }
        (self.order[index], self.order[next])
    }

    /// The two segments at the next corner under the transform, curved as they are. `None` if no corner is left.
    pub fn corner(&self) -> (segments: Option<(PathSegment, PathSegment)>)
        requires
            self@.wf(),
        ensures
            segments == if self@.goes_on() {
                Some(
                    (
                        raw_segment(self@.bevel.curve(self@.first())).image(self@.transform),
                        raw_segment(self@.bevel.curve(self@.second())).image(self@.transform),
                    ),
                )
            } else {
                None
            },
    {
        if self.cuts.len() >= self.bevel.segments.len() {
            return None;
        }
        let (first, second): (usize, usize) = self.next_segments();
        let curves: (Bezier, Bezier) = self.bevel.curves(first, second);
        Some((handles_to_segment(curves.0, self.transform), handles_to_segment(curves.1, self.transform)))
    }

    /// Measures the next corner, given whether its two segments are straight and how far the corner is to be cut
    /// along each. `None` if no corner is left or it cannot be cut.
    pub fn measure(&self, linear: (bool, bool), split: DVec2) -> (measured: Option<MeasuredCorner>)
        requires
            self@.wf(),
        ensures
            measured is Some == self@.can_cut(),
            measured matches Some(found) ==> {
                &&& self@.is_next(found)
                &&& found.linear == linear
                &&& found.corner.split == split
            },
    {
        if self.cuts.len() >= self.bevel.segments.len() {
            return None;
        }
        let (first, second): (usize, usize) = self.next_segments();
        if !self.bevel.can_cut(first, second) {
            return None;
        }
        let curves: (Bezier, Bezier) = self.bevel.curves(first, second);
        let one: PathSegment = straightened(handles_to_segment(curves.0, self.transform), linear.0);
        let other: PathSegment = straightened(handles_to_segment(curves.1, self.transform), linear.1);
        let length: DVec2 = perimeter(one);
        let next_length: DVec2 = perimeter(other);
        let index: usize = self.cuts.len();
        let count: usize = self.bevel.segments.len();
        let open_end: bool = self.bevel.is_open_end(first);
        let probed: BevelCorner = BevelCorner { index, count, length, next_length, split, open_end, open_start: false };
        let mut probe: BevelLengths = self.lengths;
        let cuts_end: bool = probe.cut(probed).end.is_some();
        let open_start: bool = self.bevel.is_open_start(first, second, cuts_end);
        let corner: BevelCorner = BevelCorner { index, count, length, next_length, split, open_end, open_start };
        let mut lengths: BevelLengths = self.lengths;
        let distances: CornerDistances = lengths.cut(corner);
        Some(MeasuredCorner { linear, segments: (one, other), corner, distances })
    }

    /// Cuts the next corner, which has been measured, at the parameters where its segments are cut.
    pub fn cut(&mut self, measured: MeasuredCorner, places: (Option<DVec2>, Option<DVec2>))
        requires
            old(self)@.wf(),
            old(self)@.is_next(measured),
            places.0 is Some == measured.distances.end is Some,
            places.1 is Some == measured.distances.start is Some,
        ensures
            final(self)@ == old(self)@.step(measured, places),
            final(self)@.wf(),
            forall|graph: VectorGraph, last_point: PointId|
                old(self)@.is_run_over(graph, last_point) ==> #[trigger] final(self)@.is_run_over(graph, last_point),
    {
        let ghost before = self@;
        let (first, second): (usize, usize) = self.next_segments();
        let curves: (Bezier, Bezier) = self.bevel.curves(first, second);
        let cut: BevelCut = cut_corner(curves.0, curves.1, self.transform, measured.linear, places);
        self.bevel.cut(first, second, cut);
        self.lengths.cut(measured.corner);
        self.cuts.push(cut);
        proof {
            let after = before.step(measured, places);
            assert(self@.cuts == after.cuts);
            assert(self@ == after);
            assert forall|graph: VectorGraph, last_point: PointId| before.is_run_over(graph, last_point) implies #[trigger] self@.is_run_over(
                graph,
                last_point,
            ) by {
                steps_stay_in_the_run(before, graph, last_point, measured, places);
            }
        }
    }
}

} // verus!
