//! A vector shape: its anchor points, the segments between them and which handles are kept in
//! line.
use glam::DVec2;
use vstd::prelude::*;

use crate::ids::{FillId, HandleId, HandleType, ManipulatorPointId, PointId, RegionId, SegmentId, StrokeId};
use crate::sequences::{
    append_copies, find_first, first_index, lemma_filter_map_take_ends, lemma_filter_map_take_step, lemma_filter_take_ends, lemma_filter_take_step,
    lemma_first_index_is, lemma_first_index_none,
};

verus! {

/// An anchor point with its position.
#[derive(Clone, Copy, Debug)]
pub struct AnchorPoint {
    pub id: PointId,
    pub position: DVec2,
}

/// The handles of a segment, at their positions.
#[derive(Clone, Copy, Debug)]
pub enum BezierHandles {
    Linear,
    Quadratic { handle: DVec2 },
    Cubic { handle_start: DVec2, handle_end: DVec2 },
}

/// A segment between two of the shape's points, which are given by their indices.
#[derive(Clone, Copy, Debug)]
pub struct Segment {
    pub id: SegmentId,
    pub start: usize,
    pub end: usize,
    pub handles: BezierHandles,
    pub stroke: StrokeId,
}

/// A filled region, bounded by a run of segments.
#[derive(Clone, Copy, Debug)]
pub struct FilledRegion {
    pub id: RegionId,
    /// The first and the last segment around the region.
    pub segments: (SegmentId, SegmentId),
    pub fill: FillId,
}

/// A segment as a curve, with the positions of its ends and handles.
#[derive(Clone, Copy, Debug)]
pub struct Bezier {
    pub start: DVec2,
    pub end: DVec2,
    pub handles: BezierHandles,
}

/// A vector shape.
#[derive(Debug)]
pub struct VectorData {
    pub points: Vec<AnchorPoint>,
    pub segments: Vec<Segment>,
    /// The pairs of handles that stay in line with each other.
    pub colinear_manipulators: Vec<(HandleId, HandleId)>,
    pub regions: Vec<FilledRegion>,
}

/// What a shape holds, as mathematical sequences.
pub struct VectorGraph {
    pub points: Seq<AnchorPoint>,
    pub segments: Seq<Segment>,
    pub colinear: Seq<(HandleId, HandleId)>,
    pub regions: Seq<FilledRegion>,
}

impl View for VectorData {
    type V = VectorGraph;

    open spec fn view(&self) -> VectorGraph {
        VectorGraph {
            points: self.points@,
            segments: self.segments@,
            colinear: self.colinear_manipulators@,
            regions: self.regions@,
        }
    }
}

impl Bezier {
    pub open spec fn spec_handle_start(self) -> Option<DVec2> {
        match self.handles {
            BezierHandles::Linear => None,
            BezierHandles::Quadratic { handle } => Some(handle),
            BezierHandles::Cubic { handle_start, .. } => Some(handle_start),
        }
    }

    /// The handle next to the start: the only one of a quadratic curve.
    #[verifier::when_used_as_spec(spec_handle_start)]
    pub fn handle_start(self) -> (handle: Option<DVec2>)
        ensures
            handle == self.spec_handle_start(),
    {
        match self.handles {
            BezierHandles::Linear => None,
            BezierHandles::Quadratic { handle } => Some(handle),
            BezierHandles::Cubic { handle_start, .. } => Some(handle_start),
        }
    }

    pub open spec fn spec_handle_end(self) -> Option<DVec2> {
        match self.handles {
            BezierHandles::Cubic { handle_end, .. } => Some(handle_end),
            _ => None,
        }
    }

    /// The handle next to the end, which only a cubic curve has.
    #[verifier::when_used_as_spec(spec_handle_end)]
    pub fn handle_end(self) -> (handle: Option<DVec2>)
        ensures
            handle == self.spec_handle_end(),
    {
        match self.handles {
            BezierHandles::Cubic { handle_end, .. } => Some(handle_end),
            _ => None,
        }
    }
}

/// Whether a point has the identifier.
pub open spec fn point_is(id: PointId) -> spec_fn(AnchorPoint) -> bool {
    |point: AnchorPoint| point.id == id
}

/// Whether a segment has the identifier.
pub open spec fn segment_is(id: SegmentId) -> spec_fn(Segment) -> bool {
    |segment: Segment| segment.id == id
}

/// Whether a pair of handles in line holds the handle.
pub open spec fn pair_holds(handle: HandleId) -> spec_fn((HandleId, HandleId)) -> bool {
    |pair: (HandleId, HandleId)| pair.0 == handle || pair.1 == handle
}

/// The primary handle of a segment that starts at the point.
pub open spec fn starting_at(point: int) -> spec_fn(Segment) -> Option<HandleId> {
    |segment: Segment|
        if segment.start == point {
            Some(HandleId::primary(segment.id))
        } else {
            None
        }
}

/// The end handle of a segment that ends at the point.
pub open spec fn ending_at(point: int) -> spec_fn(Segment) -> Option<HandleId> {
    |segment: Segment|
        if segment.end == point {
            Some(HandleId::end(segment.id))
        } else {
            None
        }
}

/// The segment, if it ends at the point.
pub open spec fn ended_at(point: int) -> spec_fn(Segment) -> Option<SegmentId> {
    |segment: Segment|
        if segment.end == point {
            Some(segment.id)
        } else {
            None
        }
}

/// Whether a handle is another one.
pub open spec fn handle_is_not(handle: HandleId) -> spec_fn(HandleId) -> bool {
    |other: HandleId| other != handle
}

/// The point that a segment joins to the point with the index, if it joins it to another.
pub open spec fn neighbor_of(points: Seq<AnchorPoint>, index: int) -> spec_fn(Segment) -> Option<PointId> {
    |segment: Segment|
        if segment.start == index && segment.end != index {
            Some(points[segment.end as int].id)
        } else if segment.start != index && segment.end == index {
            Some(points[segment.start as int].id)
        } else {
            None
        }
}

impl VectorGraph {
    /// Each segment runs between points of the shape.
    pub open spec fn wf(self) -> bool {
        forall|i: int|
            0 <= i < self.segments.len() ==> {
                &&& (#[trigger] self.segments[i]).start < self.points.len()
                &&& self.segments[i].end < self.points.len()
            }
    }

    /// The index of the point.
    pub open spec fn point_index(self, id: PointId) -> Option<int> {
        first_index(self.points, point_is(id))
    }

    /// The position of the point.
    pub open spec fn position_from_id(self, id: PointId) -> Option<DVec2> {
        match self.point_index(id) {
            Some(i) => Some(self.points[i].position),
            None => None,
        }
    }

    /// The segment with the identifier.
    pub open spec fn segment(self, id: SegmentId) -> Option<Segment> {
        find_first(self.segments, segment_is(id))
    }

    /// The curve of one of the segments.
    pub open spec fn bezier(self, segment: Segment) -> Bezier {
        Bezier {
            start: self.points[segment.start as int].position,
            end: self.points[segment.end as int].position,
            handles: segment.handles,
        }
    }

    /// The curve of the segment.
    pub open spec fn segment_from_id(self, id: SegmentId) -> Option<Bezier> {
        match self.segment(id) {
            Some(segment) => Some(self.bezier(segment)),
            None => None,
        }
    }

    /// The point at the start of the segment.
    pub open spec fn segment_start_from_id(self, id: SegmentId) -> Option<PointId> {
        match self.segment(id) {
            Some(segment) => Some(self.points[segment.start as int].id),
            None => None,
        }
    }

    /// The point at the end of the segment.
    pub open spec fn segment_end_from_id(self, id: SegmentId) -> Option<PointId> {
        match self.segment(id) {
            Some(segment) => Some(self.points[segment.end as int].id),
            None => None,
        }
    }

    /// The handles next to the point with the index: those of the segments that start there, then
    /// those of the segments that end there.
    pub open spec fn handles_at(self, index: int) -> Seq<HandleId> {
        self.segments.filter_map(starting_at(index)) + self.segments.filter_map(ending_at(index))
    }

    /// The handles next to the point.
    pub open spec fn all_connected(self, point: PointId) -> Seq<HandleId> {
        match self.point_index(point) {
            Some(index) => self.handles_at(index),
            None => Seq::empty(),
        }
    }

    /// The segments that end at the point.
    pub open spec fn end_connected(self, point: PointId) -> Seq<SegmentId> {
        match self.point_index(point) {
            Some(index) => self.segments.filter_map(ended_at(index)),
            None => Seq::empty(),
        }
    }

    /// The position of an anchor or handle.
    pub open spec fn position(self, point: ManipulatorPointId) -> Option<DVec2> {
        match point {
            ManipulatorPointId::Anchor(id) => self.position_from_id(id),
            ManipulatorPointId::PrimaryHandle(id) => match self.segment_from_id(id) {
                Some(bezier) => bezier.handle_start(),
                None => None,
            },
            ManipulatorPointId::EndHandle(id) => match self.segment_from_id(id) {
                Some(bezier) => bezier.handle_end(),
                None => None,
            },
        }
    }

    /// The anchor next to a handle, or the anchor itself.
    pub open spec fn anchor(self, point: ManipulatorPointId) -> Option<PointId> {
        match point {
            ManipulatorPointId::Anchor(id) => Some(id),
            ManipulatorPointId::PrimaryHandle(id) => self.segment_start_from_id(id),
            ManipulatorPointId::EndHandle(id) => self.segment_end_from_id(id),
        }
    }

    /// The index of the point next to a handle.
    pub open spec fn handle_point(self, handle: HandleId) -> Option<int> {
        match self.segment(handle.segment) {
            Some(segment) => Some(
                match handle.ty {
                    HandleType::Primary => segment.start as int,
                    HandleType::End => segment.end as int,
                },
            ),
            None => None,
        }
    }

    /// A pair of handles: for an anchor the first two next to it, for a handle itself and the
    /// first other one next to the same point.
    pub open spec fn handle_pair(self, point: ManipulatorPointId) -> Option<(HandleId, HandleId)> {
        match point.as_handle() {
            None => {
                let handles = self.all_connected(point->Anchor_0);
                if handles.len() >= 2 {
                    Some((handles[0], handles[1]))
                } else {
                    None
                }
            },
            Some(current) => match self.handle_point(current) {
                None => None,
                Some(index) => match find_first(self.handles_at(index), handle_is_not(current)) {
                    Some(other) => Some((current, other)),
                    None => None,
                },
            },
        }
    }

    /// The handles around a point: for an anchor all next to it, for a handle the others next to
    /// the same point.
    pub open spec fn connected_handles(self, point: ManipulatorPointId) -> Option<Seq<HandleId>> {
        match point.as_handle() {
            None => Some(self.all_connected(point->Anchor_0)),
            Some(current) => match self.handle_point(current) {
                None => None,
                Some(index) => Some(self.handles_at(index).filter(handle_is_not(current))),
            },
        }
    }

    /// The first pair of handles in line that holds the handle.
    pub open spec fn colinear_pair(self, handle: HandleId) -> Option<(HandleId, HandleId)> {
        find_first(self.colinear, pair_holds(handle))
    }

    /// Whether the handle, or one of the handles next to the anchor, is kept in line with another.
    ///
    /// That one of the handles next to an anchor suffices is a convention of this library: an anchor could as well be
    /// asked for a pair of handles that are in line with each other.
    pub open spec fn is_colinear(self, point: ManipulatorPointId) -> bool {
        match point.as_handle() {
            None => exists|i: int|
                0 <= i < self.all_connected(point->Anchor_0).len() && self.colinear_pair(
                    #[trigger] self.all_connected(point->Anchor_0)[i],
                ) is Some,
            Some(handle) => self.colinear_pair(handle) is Some,
        }
    }

    /// The handle that is kept in line with the handle, if both are next to the same anchor.
    pub open spec fn other_colinear_handle(self, handle: HandleId) -> Option<HandleId> {
        match self.colinear_pair(handle) {
            None => None,
            Some(pair) => {
                let other = if pair.0 != handle {
                    pair.0
                } else {
                    pair.1
                };
                if other != handle && self.anchor(handle.to_manipulator_point()) == self.anchor(
                    other.to_manipulator_point(),
                ) {
                    Some(other)
                } else {
                    None
                }
            },
        }
    }

    /// The point at the end of the segment that is not `current`.
    pub open spec fn other_point(self, id: SegmentId, current: PointId) -> Option<PointId> {
        match (self.point_index(current), self.segment(id)) {
            (Some(index), Some(segment)) => if segment.start != index {
                Some(self.points[segment.start as int].id)
            } else if segment.end != index {
                Some(self.points[segment.end as int].id)
            } else {
                None
            },
            _ => None,
        }
    }

    /// The points that a segment joins to the point.
    pub open spec fn connected_points(self, current: PointId) -> Seq<PointId> {
        match self.point_index(current) {
            Some(index) => self.segments.filter_map(neighbor_of(self.points, index)),
            None => Seq::empty(),
        }
    }

    /// Whether one of the segments at the point is straight.
    pub open spec fn has_linear_segment(self, point: PointId) -> bool {
        exists|i: int|
            0 <= i < self.segments.len() && self.is_linear_at(#[trigger] self.segments[i], point)
    }

    pub open spec fn is_linear_at(self, segment: Segment, point: PointId) -> bool {
        &&& self.points[segment.start as int].id == point || self.points[segment.end as int].id
            == point
        &&& segment.handles is Linear
    }

    /// The identifiers of the points, in order.
    pub open spec fn point_ids(self) -> Seq<PointId> {
        self.points.map_values(|point: AnchorPoint| point.id)
    }
}

impl VectorData {
    /// A shape that holds the same.
    pub fn duplicate(&self) -> (copy: VectorData)
        ensures
            copy@ == self@,
    {
        let mut points: Vec<AnchorPoint> = Vec::new();
        let mut segments: Vec<Segment> = Vec::new();
        let mut colinear_manipulators: Vec<(HandleId, HandleId)> = Vec::new();
        append_copies(&mut points, &self.points);
        append_copies(&mut segments, &self.segments);
        let mut regions: Vec<FilledRegion> = Vec::new();
        append_copies(&mut colinear_manipulators, &self.colinear_manipulators);
        append_copies(&mut regions, &self.regions);
        VectorData { points, segments, colinear_manipulators, regions }
    }

    /// The index of the point.
    pub fn point_index(&self, id: PointId) -> (index: Option<usize>)
        ensures
            index is Some == self@.point_index(id) is Some,
            index matches Some(i) ==> self@.point_index(id) == Some(i as int) && i < self@.points.len(),
    {
        let mut i: usize = 0;
        while i < self.points.len()
            invariant
                i <= self.points.len(),
                forall|j: int| 0 <= j < i ==> !point_is(id)(#[trigger] self@.points[j]),
            decreases self.points.len() - i,
        {
            if self.points[i].id == id {
                proof {
                    lemma_first_index_is(self@.points, point_is(id), i as int);
                }
                return Some(i);
            }
            i += 1;
        }
        proof {
            lemma_first_index_none(self@.points, point_is(id));
        }
        None
    }

    /// The position of the point.
    pub fn position_from_id(&self, id: PointId) -> (position: Option<DVec2>)
        ensures
            position == self@.position_from_id(id),
    {
        match self.point_index(id) {
            Some(i) => Some(self.points[i].position),
            None => None,
        }
    }

    /// The segment with the identifier.
    pub fn segment(&self, id: SegmentId) -> (segment: Option<Segment>)
        requires
            self@.wf(),
        ensures
            segment == self@.segment(id),
            segment matches Some(s) ==> s.start < self@.points.len() && s.end < self@.points.len(),
    {
        let mut i: usize = 0;
        while i < self.segments.len()
            invariant
                self@.wf(),
                i <= self.segments.len(),
                forall|j: int| 0 <= j < i ==> !segment_is(id)(#[trigger] self@.segments[j]),
            decreases self.segments.len() - i,
        {
            if self.segments[i].id == id {
                proof {
                    lemma_first_index_is(self@.segments, segment_is(id), i as int);
                    assert(self@.segments[i as int].start < self@.points.len());
                }
                return Some(self.segments[i]);
            }
            i += 1;
        }
        proof {
            lemma_first_index_none(self@.segments, segment_is(id));
        }
        None
    }

    /// The curve of one of the segments.
    pub fn bezier(&self, segment: Segment) -> (bezier: Bezier)
        requires
            segment.start < self@.points.len(),
            segment.end < self@.points.len(),
        ensures
            bezier == self@.bezier(segment),
    {
        Bezier {
            start: self.points[segment.start].position,
            end: self.points[segment.end].position,
            handles: segment.handles,
        }
    }

    /// The curve of the segment.
    pub fn segment_from_id(&self, id: SegmentId) -> (bezier: Option<Bezier>)
        requires
            self@.wf(),
        ensures
            bezier == self@.segment_from_id(id),
    {
        match self.segment(id) {
            Some(segment) => Some(self.bezier(segment)),
            None => None,
        }
    }

    /// The point at the start of the segment.
    pub fn segment_start_from_id(&self, id: SegmentId) -> (point: Option<PointId>)
        requires
            self@.wf(),
        ensures
            point == self@.segment_start_from_id(id),
    {
        match self.segment(id) {
            Some(segment) => Some(self.points[segment.start].id),
            None => None,
        }
    }

    /// The point at the end of the segment.
    pub fn segment_end_from_id(&self, id: SegmentId) -> (point: Option<PointId>)
        requires
            self@.wf(),
        ensures
            point == self@.segment_end_from_id(id),
    {
        match self.segment(id) {
            Some(segment) => Some(self.points[segment.end].id),
            None => None,
        }
    }

    /// The handles next to the point with the index.
    pub fn handles_at(&self, index: usize) -> (handles: Vec<HandleId>)
        ensures
            handles@ == self@.handles_at(index as int),
    {
        let mut handles: Vec<HandleId> = Vec::new();
        let ghost starts = starting_at(index as int);
        let ghost ends = ending_at(index as int);
        proof {
            lemma_filter_map_take_ends(self@.segments, starts);
            lemma_filter_map_take_ends(self@.segments, ends);
        }
        let mut i: usize = 0;
        while i < self.segments.len()
            invariant
                i <= self.segments.len(),
                starts == starting_at(index as int),
                handles@ == self@.segments.take(i as int).filter_map(starts),
            decreases self.segments.len() - i,
        {
            proof {
                lemma_filter_map_take_step(self@.segments, starts, i as int);
            }
            if self.segments[i].start == index {
                handles.push(HandleId::primary(self.segments[i].id));
            }
            i += 1;
        }
        let ghost first = handles@;
        let mut k: usize = 0;
        while k < self.segments.len()
            invariant
                k <= self.segments.len(),
                ends == ending_at(index as int),
                handles@ == first + self@.segments.take(k as int).filter_map(ends),
            decreases self.segments.len() - k,
        {
            proof {
                lemma_filter_map_take_step(self@.segments, ends, k as int);
            }
            if self.segments[k].end == index {
                handles.push(HandleId::end(self.segments[k].id));
            }
            k += 1;
        }
        handles
    }

    /// The handles next to the point: those of the segments that start there, then those of the
    /// segments that end there.
    pub fn all_connected(&self, point: PointId) -> (handles: Vec<HandleId>)
        ensures
            handles@ == self@.all_connected(point),
    {
        match self.point_index(point) {
            Some(index) => self.handles_at(index),
            None => Vec::new(),
        }
    }

    /// The segments that end at the point.
    pub fn end_connected(&self, point: PointId) -> (segments: Vec<SegmentId>)
        ensures
            segments@ == self@.end_connected(point),
    {
        let mut segments: Vec<SegmentId> = Vec::new();
        let index: usize = match self.point_index(point) {
            Some(index) => index,
            None => return segments,
        };
        let ghost ends = ended_at(index as int);
        proof {
            lemma_filter_map_take_ends(self@.segments, ends);
        }
        let mut i: usize = 0;
        while i < self.segments.len()
            invariant
                i <= self.segments.len(),
                ends == ended_at(index as int),
                segments@ == self@.segments.take(i as int).filter_map(ends),
            decreases self.segments.len() - i,
        {
            proof {
                lemma_filter_map_take_step(self@.segments, ends, i as int);
            }
            if self.segments[i].end == index {
                segments.push(self.segments[i].id);
            }
            i += 1;
        }
        segments
    }

    /// The index of the point next to the handle.
    pub fn handle_point(&self, handle: HandleId) -> (index: Option<usize>)
        requires
            self@.wf(),
        ensures
            index is Some == self@.handle_point(handle) is Some,
            index matches Some(i) ==> self@.handle_point(handle) == Some(i as int) && i < self@.points.len(),
    {
        match self.segment(handle.segment) {
            Some(segment) => match handle.ty {
                HandleType::Primary => Some(segment.start),
                HandleType::End => Some(segment.end),
            },
            None => None,
        }
    }

    /// The first pair of handles in line that holds the handle.
    pub fn colinear_pair(&self, handle: HandleId) -> (pair: Option<(HandleId, HandleId)>)
        ensures
            pair == self@.colinear_pair(handle),
    {
        let mut i: usize = 0;
        while i < self.colinear_manipulators.len()
            invariant
                i <= self.colinear_manipulators.len(),
                forall|j: int| 0 <= j < i ==> !pair_holds(handle)(#[trigger] self@.colinear[j]),
            decreases self.colinear_manipulators.len() - i,
        {
            let pair: (HandleId, HandleId) = self.colinear_manipulators[i];
            if pair.0 == handle || pair.1 == handle {
                proof {
                    lemma_first_index_is(self@.colinear, pair_holds(handle), i as int);
                }
                return Some(pair);
            }
            i += 1;
        }
        proof {
            lemma_first_index_none(self@.colinear, pair_holds(handle));
        }
        None
    }

    /// Whether the handle, or one of the handles next to the anchor, is kept in line with another.
    ///
    /// That one of the handles next to an anchor suffices is a convention of this library: an anchor could as well be
    /// asked for a pair of handles that are in line with each other.
    pub fn colinear(&self, point: ManipulatorPointId) -> (result: bool)
        ensures
            result == self@.is_colinear(point),
    {
        match point {
            ManipulatorPointId::Anchor(anchor) => {
                let handles: Vec<HandleId> = self.all_connected(anchor);
                let mut i: usize = 0;
                while i < handles.len()
                    invariant
                        i <= handles.len(),
                        point == ManipulatorPointId::Anchor(anchor),
                        handles@ == self@.all_connected(anchor),
                        forall|j: int|
                            0 <= j < i ==> self@.colinear_pair(#[trigger] handles@[j]) is None,
                    decreases handles.len() - i,
                {
                    if self.colinear_pair(handles[i]).is_some() {
                        proof {
                            assert(self@.colinear_pair(
                                self@.all_connected(point->Anchor_0)[i as int],
                            ) is Some);
                        }
                        return true;
                    }
                    i += 1;
                }
                false
            },
            ManipulatorPointId::PrimaryHandle(segment) => self.colinear_pair(
                HandleId::primary(segment),
            ).is_some(),
            ManipulatorPointId::EndHandle(segment) => self.colinear_pair(
                HandleId::end(segment),
            ).is_some(),
        }
    }

    /// The handle that is kept in line with the handle, if both are next to the same anchor.
    pub fn other_colinear_handle(&self, handle: HandleId) -> (other: Option<HandleId>)
        requires
            self@.wf(),
        ensures
            other == self@.other_colinear_handle(handle),
    {
        match self.colinear_pair(handle) {
            None => None,
            Some(pair) => {
                let other: HandleId = if pair.0 != handle {
                    pair.0
                } else {
                    pair.1
                };
                if other == handle {
                    return None;
                }
                let anchor: Option<PointId> = handle.to_manipulator_point().get_anchor(self);
                let other_anchor: Option<PointId> = other.to_manipulator_point().get_anchor(self);
                let together: bool = match (anchor, other_anchor) {
                    (Some(a), Some(b)) => a == b,
                    (None, None) => true,
                    _ => false,
                };
                if together {
                    Some(other)
                } else {
                    None
                }
            },
        }
    }

    /// The point at the end of the segment that is not `current`.
    pub fn other_point(&self, id: SegmentId, current: PointId) -> (point: Option<PointId>)
        requires
            self@.wf(),
        ensures
            point == self@.other_point(id, current),
    {
        match (self.point_index(current), self.segment(id)) {
            (Some(index), Some(segment)) => if segment.start != index {
                Some(self.points[segment.start].id)
            } else if segment.end != index {
                Some(self.points[segment.end].id)
            } else {
                None
            },
            _ => None,
        }
    }

    /// The points that a segment joins to the point.
    pub fn connected_points(&self, current: PointId) -> (points: Vec<PointId>)
        requires
            self@.wf(),
        ensures
            points@ == self@.connected_points(current),
    {
        let mut points: Vec<PointId> = Vec::new();
        let index: usize = match self.point_index(current) {
            Some(index) => index,
            None => return points,
        };
        let ghost neighbor = neighbor_of(self@.points, index as int);
        proof {
            lemma_filter_map_take_ends(self@.segments, neighbor);
        }
        let mut i: usize = 0;
        while i < self.segments.len()
            invariant
                self@.wf(),
                i <= self.segments.len(),
                neighbor == neighbor_of(self@.points, index as int),
                points@ == self@.segments.take(i as int).filter_map(neighbor),
            decreases self.segments.len() - i,
        {
            proof {
                lemma_filter_map_take_step(self@.segments, neighbor, i as int);
                assert(self@.segments[i as int].start < self@.points.len());
            }
            let segment: Segment = self.segments[i];
            if segment.start == index && segment.end != index {
                points.push(self.points[segment.end].id);
            } else if segment.start != index && segment.end == index {
                points.push(self.points[segment.start].id);
            }
            i += 1;
        }
        points
    }

    /// Whether one of the segments at the point is straight.
    pub fn has_linear_segment(&self, point: PointId) -> (result: bool)
        requires
            self@.wf(),
        ensures
            result == self@.has_linear_segment(point),
    {
        let mut i: usize = 0;
        while i < self.segments.len()
            invariant
                self@.wf(),
                i <= self.segments.len(),
                forall|j: int|
                    0 <= j < i ==> !self@.is_linear_at(#[trigger] self@.segments[j], point),
            decreases self.segments.len() - i,
        {
            let segment: Segment = self.segments[i];
            proof {
                assert(self@.segments[i as int].start < self@.points.len());
            }
            let touches: bool = self.points[segment.start].id == point
                || self.points[segment.end].id == point;
            let linear: bool = match segment.handles {
                BezierHandles::Linear => true,
                _ => false,
            };
            if touches && linear {
                proof {
                    assert(self@.is_linear_at(self@.segments[i as int], point));
                }
                return true;
            }
            i += 1;
        }
        false
    }
}

impl ManipulatorPointId {
    /// The position of this anchor or handle in the shape.
    pub fn get_position(self, vector_data: &VectorData) -> (position: Option<DVec2>)
        requires
            vector_data@.wf(),
        ensures
            position == vector_data@.position(self),
    {
        match self {
            ManipulatorPointId::Anchor(id) => vector_data.position_from_id(id),
            ManipulatorPointId::PrimaryHandle(id) => match vector_data.segment_from_id(id) {
                Some(bezier) => bezier.handle_start(),
                None => None,
            },
            ManipulatorPointId::EndHandle(id) => match vector_data.segment_from_id(id) {
                Some(bezier) => bezier.handle_end(),
                None => None,
            },
        }
    }

    /// The anchor next to this handle, or this anchor.
    pub fn get_anchor(self, vector_data: &VectorData) -> (anchor: Option<PointId>)
        requires
            vector_data@.wf(),
        ensures
            anchor == vector_data@.anchor(self),
    {
        match self {
            ManipulatorPointId::Anchor(id) => Some(id),
            ManipulatorPointId::PrimaryHandle(id) => vector_data.segment_start_from_id(id),
            ManipulatorPointId::EndHandle(id) => vector_data.segment_end_from_id(id),
        }
    }
}

impl ManipulatorPointId {
    /// A pair of handles: for an anchor the first two next to it, for a handle itself and the
    /// first other one next to the same point.
    pub fn get_handle_pair(self, vector_data: &VectorData) -> (pair: Option<(HandleId, HandleId)>)
        requires
            vector_data@.wf(),
        ensures
            pair == vector_data@.handle_pair(self),
    {
        match self.as_handle() {
            None => match self {
                ManipulatorPointId::Anchor(anchor) => {
                    let handles: Vec<HandleId> = vector_data.all_connected(anchor);
                    if handles.len() >= 2 {
                        Some((handles[0], handles[1]))
                    } else {
                        None
                    }
                },
                _ => None,
            },
            Some(current) => {
                let index: usize = match vector_data.handle_point(current) {
                    Some(index) => index,
                    None => return None,
                };
                let handles: Vec<HandleId> = vector_data.handles_at(index);
                let mut i: usize = 0;
                while i < handles.len()
                    invariant
                        i <= handles.len(),
                        handles@ == vector_data@.handles_at(index as int),
                        vector_data@.handle_point(current) == Some(index as int),
                        self.as_handle() == Some(current),
                        forall|j: int|
                            0 <= j < i ==> !handle_is_not(current)(#[trigger] handles@[j]),
                    decreases handles.len() - i,
                {
                    if handles[i] != current {
                        proof {
                            lemma_first_index_is(handles@, handle_is_not(current), i as int);
                        }
                        return Some((current, handles[i]));
                    }
                    i += 1;
                }
                proof {
                    lemma_first_index_none(handles@, handle_is_not(current));
                }
                None
            },
        }
    }

    /// The handles around this point: for an anchor all next to it, for a handle the others next
    /// to the same point.
    pub fn get_all_connected_handles(self, vector_data: &VectorData) -> (handles: Option<Vec<HandleId>>)
        requires
            vector_data@.wf(),
        ensures
            handles is Some == vector_data@.connected_handles(self) is Some,
            handles matches Some(h) ==> vector_data@.connected_handles(self) == Some(h@),
    {
        match self.as_handle() {
            None => match self {
                ManipulatorPointId::Anchor(anchor) => Some(vector_data.all_connected(anchor)),
                _ => None,
            },
            Some(current) => {
                let index: usize = match vector_data.handle_point(current) {
                    Some(index) => index,
                    None => return None,
                };
                let handles: Vec<HandleId> = vector_data.handles_at(index);
                let mut others: Vec<HandleId> = Vec::new();
                let ghost keep = handle_is_not(current);
                proof {
                    lemma_filter_take_ends(handles@, keep);
                }
                let mut i: usize = 0;
                while i < handles.len()
                    invariant
                        i <= handles.len(),
                        keep == handle_is_not(current),
                        others@ == handles@.take(i as int).filter(keep),
                    decreases handles.len() - i,
                {
                    proof {
                        lemma_filter_take_step(handles@, keep, i as int);
                    }
                    if handles[i] != current {
                        others.push(handles[i]);
                    }
                    i += 1;
                }
                Some(others)
            },
        }
    }
}

} // verus!
