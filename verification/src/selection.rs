//! What is selected in one layer.
use vstd::prelude::*;

use crate::id_set::{with, with_all, without, IdSet};
use crate::ids::{ManipulatorPointId, SegmentId};
use crate::sequences::{lemma_filter_no_duplicates, lemma_filter_take_ends, lemma_filter_take_step};

verus! {

/// The selected points and segments of a layer.
#[derive(Debug)]
pub struct SelectedLayerState {
    pub selected_points: IdSet<ManipulatorPointId>,
    pub selected_segments: IdSet<SegmentId>,
    /// Whether handles are left out for now, because they are not shown.
    pub ignore_handles: bool,
    /// Whether anchors are left out for now, because they are not shown.
    pub ignore_anchors: bool,
    /// The handles that were selected when they were left out.
    pub ignored_handle_points: IdSet<ManipulatorPointId>,
    /// The anchors that were selected when they were left out.
    pub ignored_anchor_points: IdSet<ManipulatorPointId>,
}

/// The selection of a layer, as mathematical values.
pub struct LayerSelection {
    pub points: Seq<ManipulatorPointId>,
    pub segments: Seq<SegmentId>,
    pub ignore_handles: bool,
    pub ignore_anchors: bool,
    pub ignored_handle_points: Seq<ManipulatorPointId>,
    pub ignored_anchor_points: Seq<ManipulatorPointId>,
}

impl View for SelectedLayerState {
    type V = LayerSelection;

    open spec fn view(&self) -> LayerSelection {
        LayerSelection {
            points: self.selected_points@,
            segments: self.selected_segments@,
            ignore_handles: self.ignore_handles,
            ignore_anchors: self.ignore_anchors,
            ignored_handle_points: self.ignored_handle_points@,
            ignored_anchor_points: self.ignored_anchor_points@,
        }
    }
}

/// Whether the point is a handle.
pub open spec fn is_handle() -> spec_fn(ManipulatorPointId) -> bool {
    |point: ManipulatorPointId| point.as_handle() is Some
}

/// Whether the point is an anchor.
pub open spec fn is_anchor() -> spec_fn(ManipulatorPointId) -> bool {
    |point: ManipulatorPointId| point.as_anchor() is Some
}

/// Whether the sequence does not hold the point.
pub open spec fn is_outside(points: Seq<ManipulatorPointId>) -> spec_fn(ManipulatorPointId) -> bool {
    |point: ManipulatorPointId| !points.contains(point)
}

impl LayerSelection {
    /// Nothing is listed twice.
    pub open spec fn wf(self) -> bool {
        &&& self.points.no_duplicates()
        &&& self.segments.no_duplicates()
        &&& self.ignored_handle_points.no_duplicates()
        &&& self.ignored_anchor_points.no_duplicates()
    }

    /// Nothing is selected and nothing is left out.
    pub open spec fn nothing() -> LayerSelection {
        LayerSelection {
            points: Seq::empty(),
            segments: Seq::empty(),
            ignore_handles: false,
            ignore_anchors: false,
            ignored_handle_points: Seq::empty(),
            ignored_anchor_points: Seq::empty(),
        }
    }

    pub open spec fn select_point(self, point: ManipulatorPointId) -> LayerSelection {
        LayerSelection { points: with(self.points, point), ..self }
    }

    pub open spec fn select_points(self, points: Seq<ManipulatorPointId>) -> LayerSelection {
        LayerSelection { points: with_all(self.points, points), ..self }
    }

    pub open spec fn deselect_point(self, point: ManipulatorPointId) -> LayerSelection {
        LayerSelection { points: without(self.points, point), ..self }
    }

    pub open spec fn select_segment(self, segment: SegmentId) -> LayerSelection {
        LayerSelection { segments: with(self.segments, segment), ..self }
    }

    pub open spec fn deselect_segment(self, segment: SegmentId) -> LayerSelection {
        LayerSelection { segments: without(self.segments, segment), ..self }
    }

    pub open spec fn clear_points(self) -> LayerSelection {
        LayerSelection { points: Seq::empty(), ..self }
    }

    pub open spec fn clear_segments(self) -> LayerSelection {
        LayerSelection { segments: Seq::empty(), ..self }
    }

    /// The selected points that pass stay selected.
    pub open spec fn keep_points(self, pred: spec_fn(ManipulatorPointId) -> bool) -> LayerSelection {
        LayerSelection { points: self.points.filter(pred), ..self }
    }

    /// Handles are shown (`status`) or not. The selected handles are set aside while they are not
    /// shown. Nothing happens where they were in that state already.
    pub open spec fn show_handles(self, status: bool) -> LayerSelection {
        if self.ignore_handles != status {
            self
        } else if status {
            LayerSelection {
                ignore_handles: false,
                points: with_all(self.points, self.ignored_handle_points),
                ignored_handle_points: Seq::empty(),
                ..self
            }
        } else {
            let ignored = with_all(self.ignored_handle_points, self.points.filter(is_handle()));
            LayerSelection {
                ignore_handles: true,
                points: self.points.filter(is_outside(ignored)),
                ignored_handle_points: ignored,
                ..self
            }
        }
    }

    /// Anchors are shown (`status`) or not. The selected anchors are set aside while they are not
    /// shown. Nothing happens where they were in that state already.
    pub open spec fn show_anchors(self, status: bool) -> LayerSelection {
        if self.ignore_anchors != status {
            self
        } else if status {
            LayerSelection {
                ignore_anchors: false,
                points: with_all(self.points, self.ignored_anchor_points),
                ignored_anchor_points: Seq::empty(),
                ..self
            }
        } else {
            let ignored = with_all(self.ignored_anchor_points, self.points.filter(is_anchor()));
            LayerSelection {
                ignore_anchors: true,
                points: self.points.filter(is_outside(ignored)),
                ignored_anchor_points: ignored,
                ..self
            }
        }
    }
}

/// Which of the selected points to keep.
enum Kind {
    Handle,
    Anchor,
}

impl Kind {
    spec fn pred(self) -> spec_fn(ManipulatorPointId) -> bool {
        match self {
            Kind::Handle => is_handle(),
            Kind::Anchor => is_anchor(),
        }
    }
}

/// The points of the kind, in order.
fn points_of_kind(points: &Vec<ManipulatorPointId>, kind: Kind) -> (result: Vec<ManipulatorPointId>)
    ensures
        result@ == points@.filter(kind.pred()),
{
    let mut result: Vec<ManipulatorPointId> = Vec::new();
    let ghost pred = kind.pred();
    proof {
        lemma_filter_take_ends(points@, pred);
    }
    let mut i: usize = 0;
    while i < points.len()
        invariant
            i <= points.len(),
            pred == kind.pred(),
            result@ == points@.take(i as int).filter(pred),
        decreases points.len() - i,
    {
        proof {
            lemma_filter_take_step(points@, pred, i as int);
        }
        let point: ManipulatorPointId = points[i];
        let passes: bool = match kind {
            Kind::Handle => point.as_handle().is_some(),
            Kind::Anchor => point.as_anchor().is_some(),
        };
        if passes {
            result.push(point);
        }
        i += 1;
    }
    result
}

/// The points that the set does not hold, in order.
fn points_outside(points: &Vec<ManipulatorPointId>, set: &IdSet<ManipulatorPointId>) -> (result: Vec<ManipulatorPointId>)
    ensures
        result@ == points@.filter(is_outside(set@)),
{
    let mut result: Vec<ManipulatorPointId> = Vec::new();
    let ghost pred = is_outside(set@);
    proof {
        lemma_filter_take_ends(points@, pred);
    }
    let mut i: usize = 0;
    while i < points.len()
        invariant
            i <= points.len(),
            pred == is_outside(set@),
            result@ == points@.take(i as int).filter(pred),
        decreases points.len() - i,
    {
        proof {
            lemma_filter_take_step(points@, pred, i as int);
        }
        let point: ManipulatorPointId = points[i];
        if !set.contains(point) {
            result.push(point);
        }
        i += 1;
    }
    result
}

impl SelectedLayerState {
    /// A layer in which nothing is selected.
    pub fn new() -> (state: Self)
        ensures
            state@ == LayerSelection::nothing(),
            state@.wf(),
    {
        SelectedLayerState {
            selected_points: IdSet::new(),
            selected_segments: IdSet::new(),
            ignore_handles: false,
            ignore_anchors: false,
            ignored_handle_points: IdSet::new(),
            ignored_anchor_points: IdSet::new(),
        }
    }

    /// The selected points.
    pub fn selected_points(&self) -> (points: &Vec<ManipulatorPointId>)
        ensures
            points@ == self@.points,
    {
        &self.selected_points.items
    }

    /// The selected segments.
    pub fn selected_segments(&self) -> (segments: &Vec<SegmentId>)
        ensures
            segments@ == self@.segments,
    {
        &self.selected_segments.items
    }

    /// The number of selected points.
    pub fn selected_points_count(&self) -> (count: usize)
        ensures
            count == self@.points.len(),
    {
        self.selected_points.len()
    }

    /// The number of selected segments.
    pub fn selected_segments_count(&self) -> (count: usize)
        ensures
            count == self@.segments.len(),
    {
        self.selected_segments.len()
    }

    pub fn is_segment_selected(&self, segment: SegmentId) -> (result: bool)
        ensures
            result == self@.segments.contains(segment),
    {
        self.selected_segments.contains(segment)
    }

    pub fn is_point_selected(&self, point: ManipulatorPointId) -> (result: bool)
        ensures
            result == self@.points.contains(point),
    {
        self.selected_points.contains(point)
    }

    pub fn select_point(&mut self, point: ManipulatorPointId)
        requires
            old(self)@.wf(),
        ensures
            final(self)@ == old(self)@.select_point(point),
            final(self)@.wf(),
    {
        self.selected_points.insert(point);
    }

    /// Selects each of the points.
    pub fn select_points(&mut self, points: &Vec<ManipulatorPointId>)
        requires
            old(self)@.wf(),
        ensures
            final(self)@ == old(self)@.select_points(points@),
            final(self)@.wf(),
    {
        self.selected_points.insert_all(points);
    }

    pub fn select_segment(&mut self, segment: SegmentId)
        requires
            old(self)@.wf(),
        ensures
            final(self)@ == old(self)@.select_segment(segment),
            final(self)@.wf(),
    {
        self.selected_segments.insert(segment);
    }

    pub fn deselect_point(&mut self, point: ManipulatorPointId)
        requires
            old(self)@.wf(),
        ensures
            final(self)@ == old(self)@.deselect_point(point),
            final(self)@.wf(),
    {
        self.selected_points.remove(point);
    }

    pub fn deselect_segment(&mut self, segment: SegmentId)
        requires
            old(self)@.wf(),
        ensures
            final(self)@ == old(self)@.deselect_segment(segment),
            final(self)@.wf(),
    {
        self.selected_segments.remove(segment);
    }

    pub fn deselect_all_points_in_layer(&mut self)
        requires
            old(self)@.wf(),
        ensures
            final(self)@ == old(self)@.clear_points(),
            final(self)@.wf(),
    {
        self.selected_points.clear();
    }

    pub fn deselect_all_segments_in_layer(&mut self)
        requires
            old(self)@.wf(),
        ensures
            final(self)@ == old(self)@.clear_segments(),
            final(self)@.wf(),
    {
        self.selected_segments.clear();
    }

    pub fn clear_points(&mut self)
        requires
            old(self)@.wf(),
        ensures
            final(self)@ == old(self)@.clear_points(),
            final(self)@.wf(),
    {
        self.selected_points.clear();
    }

    pub fn clear_segments(&mut self)
        requires
            old(self)@.wf(),
        ensures
            final(self)@ == old(self)@.clear_segments(),
            final(self)@.wf(),
    {
        self.selected_segments.clear();
    }

    /// Deselects the anchors.
    pub fn deselect_anchors(&mut self)
        requires
            old(self)@.wf(),
        ensures
            final(self)@ == old(self)@.keep_points(is_handle()),
            final(self)@.wf(),
    {
        proof {
            lemma_filter_no_duplicates(self@.points, is_handle());
        }
        self.selected_points.items = points_of_kind(&self.selected_points.items, Kind::Handle);
    }

    /// Deselects the handles.
    pub fn deselect_handles(&mut self)
        requires
            old(self)@.wf(),
        ensures
            final(self)@ == old(self)@.keep_points(is_anchor()),
            final(self)@.wf(),
    {
        proof {
            lemma_filter_no_duplicates(self@.points, is_anchor());
        }
        self.selected_points.items = points_of_kind(&self.selected_points.items, Kind::Anchor);
    }

    /// Shows the handles (`status`) or leaves them out. The selected handles are set aside while
    /// they are left out.
    pub fn ignore_handles(&mut self, status: bool)
        requires
            old(self)@.wf(),
        ensures
            final(self)@ == old(self)@.show_handles(status),
            final(self)@.wf(),
    {
        if self.ignore_handles != status {
            return;
        }
        self.ignore_handles = !status;
        if self.ignore_handles {
            let handles: Vec<ManipulatorPointId> = points_of_kind(&self.selected_points.items, Kind::Handle);
            self.ignored_handle_points.insert_all(&handles);
            proof {
                lemma_filter_no_duplicates(self@.points, is_outside(self@.ignored_handle_points));
            }
            self.selected_points.items = points_outside(&self.selected_points.items, &self.ignored_handle_points);
        } else {
            self.selected_points.insert_all(&self.ignored_handle_points.items);
            self.ignored_handle_points.clear();
        }
    }

    /// Shows the anchors (`status`) or leaves them out. The selected anchors are set aside while
    /// they are left out.
    pub fn ignore_anchors(&mut self, status: bool)
        requires
            old(self)@.wf(),
        ensures
            final(self)@ == old(self)@.show_anchors(status),
            final(self)@.wf(),
    {
        if self.ignore_anchors != status {
            return;
        }
        self.ignore_anchors = !status;
        if self.ignore_anchors {
            let anchors: Vec<ManipulatorPointId> = points_of_kind(&self.selected_points.items, Kind::Anchor);
            self.ignored_anchor_points.insert_all(&anchors);
            proof {
                lemma_filter_no_duplicates(self@.points, is_outside(self@.ignored_anchor_points));
            }
            self.selected_points.items = points_outside(&self.selected_points.items, &self.ignored_anchor_points);
        } else {
            self.selected_points.insert_all(&self.ignored_anchor_points.items);
            self.ignored_anchor_points.clear();
        }
    }
}

} // verus!
