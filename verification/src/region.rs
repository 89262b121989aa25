//! Selecting what is in a region of the viewport.
use glam::{DAffine2, DVec2};
use vstd::prelude::*;

use crate::document::{Document, DocumentView, ShapeLayer, VectorLayer};
use crate::geometry::{at_most, is_at_most, lower, lower_of, splat, transform_point, transformed_point, upper, upper_of, zero};
use crate::id_set::{inserting_adds_one_item, removing_takes_one_item};
use crate::ids::{HandleId, LayerNodeIdentifier, ManipulatorPointId, PointId, SegmentId};
use crate::picking::{contains_info, ManipulatorPointInfo};
use crate::selection::{LayerSelection, SelectedLayerState};
use crate::sequences::{find_first, first_index, lemma_first_index_is, lemma_first_index_none};
use crate::shape_state::{changed_until, lemma_changed_ends, lemma_changed_step, LayerEntry, ShapeSelection, ShapeState};
use crate::tool::{SelectionChange, SelectionMode, SelectionShape};
use crate::vector_data::{Bezier, Segment, VectorData};

verus! {

/// A region of the viewport, and what becomes of the selection there.
#[derive(Clone, Copy, Debug)]
pub struct Region<'a> {
    pub shape: SelectionShape<'a>,
    pub change: SelectionChange,
    pub mode: SelectionMode,
    pub select_segments: bool,
}

/// What the curve of a segment is tested for.
#[derive(Debug)]
pub struct SegmentTests {
    /// Two opposite corners of the box around the curve, in the space of the layer.
    pub bounds: (DVec2, DVec2),
    /// Whether the curve crosses the border of the box that is the region.
    pub crosses_box: bool,
    /// Whether each of the points sampled on the curve is inside the lasso.
    pub samples_in_lasso: Vec<bool>,
    /// Whether the handle next to the start is inside the lasso.
    pub start_handle_in_lasso: bool,
    /// Whether the handle next to the end is inside the lasso.
    pub end_handle_in_lasso: bool,
}

/// What the segments and the anchors of a layer are tested for, in their order.
#[derive(Debug)]
pub struct LayerTests {
    pub layer: LayerNodeIdentifier,
    pub segments: Vec<SegmentTests>,
    /// Whether each anchor is inside the lasso.
    pub anchors_in_lasso: Vec<bool>,
}

/// The tests of a segment, as mathematical values.
pub struct SegmentTestsView {
    pub bounds: (DVec2, DVec2),
    pub crosses_box: bool,
    pub samples_in_lasso: Seq<bool>,
    pub start_handle_in_lasso: bool,
    pub end_handle_in_lasso: bool,
}

/// The tests of a layer, as mathematical values.
pub struct LayerTestsView {
    pub layer: LayerNodeIdentifier,
    pub segments: Seq<SegmentTestsView>,
    pub anchors_in_lasso: Seq<bool>,
}

impl View for SegmentTests {
    type V = SegmentTestsView;

    open spec fn view(&self) -> SegmentTestsView {
        SegmentTestsView {
            bounds: self.bounds,
            crosses_box: self.crosses_box,
            samples_in_lasso: self.samples_in_lasso@,
            start_handle_in_lasso: self.start_handle_in_lasso,
            end_handle_in_lasso: self.end_handle_in_lasso,
        }
    }
}

impl View for LayerTests {
    type V = LayerTestsView;

    open spec fn view(&self) -> LayerTestsView {
        LayerTestsView {
            layer: self.layer,
            segments: self.segments@.map_values(|tests: SegmentTests| tests@),
            anchors_in_lasso: self.anchors_in_lasso@,
        }
    }
}

pub open spec fn tests_view(tests: Seq<LayerTests>) -> Seq<LayerTestsView> {
    tests.map_values(|layer: LayerTests| layer@)
}

pub open spec fn tests_are_of(layer: LayerNodeIdentifier) -> spec_fn(LayerTestsView) -> bool {
    |tests: LayerTestsView| tests.layer == layer
}

/// Whether each segment of the layer has been tested, and for a lasso each anchor too. For a lasso without an inside
/// nothing needs to be.
pub open spec fn is_tested(document: DocumentView, region: Region, tests: Seq<LayerTestsView>, layer: LayerNodeIdentifier) -> bool {
    !is_empty_lasso(region.shape) ==> (document.vector(layer) matches Some(vector) ==> {
        &&& find_first(tests, tests_are_of(layer)) matches Some(found)
        &&& found.segments.len() == vector.graph.segments.len()
        &&& region.shape is Lasso ==> found.anchors_in_lasso.len() == vector.graph.points.len()
    })
}

/// Whether the position is in the box.
pub open spec fn in_box(quad: (DVec2, DVec2), position: DVec2) -> bool {
    is_at_most(lower_of(quad.0, quad.1), position) && is_at_most(position, upper_of(quad.0, quad.1))
}

/// Whether a position of the layer is in the region; for a lasso, that has been tested.
pub open spec fn in_region(region: Region, transform: DAffine2, position: DVec2, in_lasso: bool) -> bool {
    match region.shape {
        SelectionShape::Box(quad) => in_box(quad, transformed_point(transform, position)),
        SelectionShape::Lasso(_) => in_lasso,
    }
}

/// Whether a segment is in the region: enclosed by it or, if touching is enough, touched by it.
pub open spec fn segment_in_region(region: Region, transform: DAffine2, tests: SegmentTestsView) -> bool {
    match region.shape {
        SelectionShape::Box(quad) => {
            let enclosed = is_at_most(lower_of(quad.0, quad.1), transformed_point(transform, tests.bounds.0)) && is_at_most(
                transformed_point(transform, tests.bounds.1),
                upper_of(quad.0, quad.1),
            );
            enclosed || (region.mode != SelectionMode::Enclosed && tests.crosses_box)
        },
        SelectionShape::Lasso(_) => if region.mode == SelectionMode::Enclosed {
            forall|i: int| 0 <= i < tests.samples_in_lasso.len() ==> #[trigger] tests.samples_in_lasso[i]
        } else {
            exists|i: int| 0 <= i < tests.samples_in_lasso.len() && #[trigger] tests.samples_in_lasso[i]
        },
    }
}

/// What is looked at in a layer.
pub struct Looked<'a> {
    pub vector: ShapeLayer,
    pub region: Region<'a>,
    pub tests: LayerTestsView,
    pub visible: Seq<ManipulatorPointInfo>,
}

impl Looked<'_> {
    /// Whether the segment at the index is to be selected or deselected.
    pub open spec fn hits_segment(self, i: int) -> bool {
        self.region.select_segments && segment_in_region(self.region, self.vector.to_viewport, self.tests.segments[i])
    }

    /// Whether the handle is to be selected or deselected: it is in the region and visible, and to be
    /// selected it has to have a length.
    pub open spec fn hits_handle(self, handle: HandleId, position: Option<DVec2>, in_lasso: bool) -> bool {
        let point = handle.to_manipulator_point();
        &&& position matches Some(p)
        &&& in_region(self.region, self.vector.to_viewport, p, in_lasso)
        &&& self.visible.contains(ManipulatorPointInfo { layer: self.vector.layer, point_id: point })
        &&& self.region.change == SelectionChange::Shrink || self.vector.graph.is_longer(handle, zero())
    }

    /// Whether the handle next to the start of the segment at the index is to be selected or
    /// deselected.
    pub open spec fn hits_start_handle(self, i: int) -> bool {
        let segment = self.vector.graph.segments[i];
        self.hits_handle(
            HandleId::primary(segment.id),
            self.vector.graph.bezier(segment).handle_start(),
            self.tests.segments[i].start_handle_in_lasso,
        )
    }

    /// Whether the handle next to the end of the segment at the index is to be selected or
    /// deselected.
    pub open spec fn hits_end_handle(self, i: int) -> bool {
        let segment = self.vector.graph.segments[i];
        self.hits_handle(
            HandleId::end(segment.id),
            self.vector.graph.bezier(segment).handle_end(),
            self.tests.segments[i].end_handle_in_lasso,
        )
    }

    /// Whether the anchor at the index is to be selected or deselected.
    pub open spec fn hits_anchor(self, i: int) -> bool {
        in_region(
            self.region,
            self.vector.to_viewport,
            self.vector.graph.points[i].position,
            self.tests.anchors_in_lasso[i],
        )
    }

    /// The selection after a point has been looked at.
    pub open spec fn change_point(self, selection: LayerSelection, point: ManipulatorPointId, is_hit: bool) -> LayerSelection {
        if !is_hit {
            selection
        } else if self.region.change == SelectionChange::Shrink {
            selection.deselect_point(point)
        } else {
            selection.select_point(point)
        }
    }

    /// The selection after a segment has been looked at.
    pub open spec fn change_segment(self, selection: LayerSelection, segment: SegmentId, is_hit: bool) -> LayerSelection {
        if !is_hit {
            selection
        } else if self.region.change == SelectionChange::Shrink {
            selection.deselect_segment(segment)
        } else {
            selection.select_segment(segment)
        }
    }

    /// The selection after the first `n` segments and their handles have been looked at.
    pub open spec fn look_at_segments(self, selection: LayerSelection, n: nat) -> LayerSelection
        decreases n,
    {
        if n == 0 {
            selection
        } else {
            let i = n - 1;
            let id = self.vector.graph.segments[i].id;
            let before = self.look_at_segments(selection, i as nat);
            let with_segment = self.change_segment(before, id, self.hits_segment(i));
            let with_start = self.change_point(with_segment, ManipulatorPointId::PrimaryHandle(id), self.hits_start_handle(i));
            self.change_point(with_start, ManipulatorPointId::EndHandle(id), self.hits_end_handle(i))
        }
    }

    /// The selection after the first `n` anchors have been looked at.
    pub open spec fn look_at_anchors(self, selection: LayerSelection, n: nat) -> LayerSelection
        decreases n,
    {
        if n == 0 {
            selection
        } else {
            let i = n - 1;
            self.change_point(
                self.look_at_anchors(selection, i as nat),
                ManipulatorPointId::Anchor(self.vector.graph.points[i].id),
                self.hits_anchor(i),
            )
        }
    }

    /// The selection after the layer has been looked at.
    pub open spec fn look(self, selection: LayerSelection) -> LayerSelection {
        self.look_at_anchors(
            self.look_at_segments(selection, self.vector.graph.segments.len()),
            self.vector.graph.points.len(),
        )
    }

    /// Whether the point is one of those that are to be selected or deselected.
    pub open spec fn hits(self, point: ManipulatorPointId) -> bool {
        match point {
            ManipulatorPointId::Anchor(id) => exists|i: int|
                0 <= i < self.vector.graph.points.len() && (#[trigger] self.vector.graph.points[i]).id == id && self.hits_anchor(i),
            ManipulatorPointId::PrimaryHandle(id) => exists|i: int|
                0 <= i < self.vector.graph.segments.len() && (#[trigger] self.vector.graph.segments[i]).id == id
                    && self.hits_start_handle(i),
            ManipulatorPointId::EndHandle(id) => exists|i: int|
                0 <= i < self.vector.graph.segments.len() && (#[trigger] self.vector.graph.segments[i]).id == id
                    && self.hits_end_handle(i),
        }
    }

    /// Whether one of the first handles and anchors makes the point one that is to be selected or
    /// deselected.
    spec fn hits_early(self, point: ManipulatorPointId, segments: int, points: int) -> bool {
        match point {
            ManipulatorPointId::Anchor(id) => exists|i: int|
                0 <= i < points && (#[trigger] self.vector.graph.points[i]).id == id && self.hits_anchor(i),
            ManipulatorPointId::PrimaryHandle(id) => exists|i: int|
                0 <= i < segments && (#[trigger] self.vector.graph.segments[i]).id == id && self.hits_start_handle(i),
            ManipulatorPointId::EndHandle(id) => exists|i: int|
                0 <= i < segments && (#[trigger] self.vector.graph.segments[i]).id == id && self.hits_end_handle(i),
        }
    }

    /// What looking at the first segments does to the selected points.
    proof fn lemma_segments(self, selection: LayerSelection, n: nat)
        requires
            n <= self.vector.graph.segments.len(),
        ensures
            self.region.change != SelectionChange::Shrink ==> forall|point: ManipulatorPointId| #[trigger]
                self.look_at_segments(selection, n).points.contains(point) <==> selection.points.contains(point) || self.hits_early(
                    point,
                    n as int,
                    0,
                ),
            self.region.change == SelectionChange::Shrink ==> forall|point: ManipulatorPointId| #[trigger]
                self.look_at_segments(selection, n).points.contains(point) <==> selection.points.contains(point) && !self.hits_early(
                    point,
                    n as int,
                    0,
                ),
        decreases n,
    {
        if n > 0 {
            let i = n - 1;
            self.lemma_segments(selection, i as nat);
            let id = self.vector.graph.segments[i].id;
            let before = self.look_at_segments(selection, i as nat);
            let with_segment = self.change_segment(before, id, self.hits_segment(i));
            assert(with_segment.points == before.points);
            let start = ManipulatorPointId::PrimaryHandle(id);
            let end = ManipulatorPointId::EndHandle(id);
            let with_start = self.change_point(with_segment, start, self.hits_start_handle(i));
            inserting_adds_one_item(with_segment.points, start);
            removing_takes_one_item(with_segment.points, start);
            inserting_adds_one_item(with_start.points, end);
            removing_takes_one_item(with_start.points, end);
            assert forall|point: ManipulatorPointId| #[trigger] self.hits_early(point, n as int, 0) <==> self.hits_early(point, i as int, 0) || (point
                == start && self.hits_start_handle(i)) || (point == end && self.hits_end_handle(i)) by {
                assert(self.vector.graph.segments[i].id == id);
            }
            let after = self.look_at_segments(selection, n);
            if self.region.change != SelectionChange::Shrink {
                assert forall|point: ManipulatorPointId| #[trigger] after.points.contains(point) <==> selection.points.contains(point)
                    || self.hits_early(point, n as int, 0) by {
                    assert(before.points.contains(point) <==> selection.points.contains(point) || self.hits_early(point, i as int, 0));
                    assert(with_start.points.contains(point) <==> before.points.contains(point) || (point == start && self.hits_start_handle(i)));
                }
            } else {
                assert forall|point: ManipulatorPointId| #[trigger] after.points.contains(point) <==> selection.points.contains(point)
                    && !self.hits_early(point, n as int, 0) by {
                    assert(before.points.contains(point) <==> selection.points.contains(point) && !self.hits_early(point, i as int, 0));
                    assert(with_start.points.contains(point) <==> before.points.contains(point) && !(point == start && self.hits_start_handle(i)));
                }
            }
        }
    }

    /// What looking at the first anchors does to the selected points.
    proof fn lemma_anchors(self, selection: LayerSelection, n: nat)
        requires
            n <= self.vector.graph.points.len(),
        ensures
            self.region.change != SelectionChange::Shrink ==> forall|point: ManipulatorPointId| #[trigger]
                self.look_at_anchors(selection, n).points.contains(point) <==> selection.points.contains(point) || self.hits_early(
                    point,
                    0,
                    n as int,
                ),
            self.region.change == SelectionChange::Shrink ==> forall|point: ManipulatorPointId| #[trigger]
                self.look_at_anchors(selection, n).points.contains(point) <==> selection.points.contains(point) && !self.hits_early(
                    point,
                    0,
                    n as int,
                ),
        decreases n,
    {
        if n > 0 {
            let i = n - 1;
            self.lemma_anchors(selection, i as nat);
            let before = self.look_at_anchors(selection, i as nat);
            let anchor = ManipulatorPointId::Anchor(self.vector.graph.points[i].id);
            inserting_adds_one_item(before.points, anchor);
            removing_takes_one_item(before.points, anchor);
            assert forall|point: ManipulatorPointId| #[trigger] self.hits_early(point, 0, n as int) <==> self.hits_early(point, 0, i as int) || (point
                == anchor && self.hits_anchor(i)) by {
                assert(self.vector.graph.points[i].id == self.vector.graph.points[i].id);
            }
            let after = self.look_at_anchors(selection, n);
            if self.region.change != SelectionChange::Shrink {
                assert forall|point: ManipulatorPointId| #[trigger] after.points.contains(point) <==> selection.points.contains(point)
                    || self.hits_early(point, 0, n as int) by {
                    assert(before.points.contains(point) <==> selection.points.contains(point) || self.hits_early(point, 0, i as int));
                }
            } else {
                assert forall|point: ManipulatorPointId| #[trigger] after.points.contains(point) <==> selection.points.contains(point)
                    && !self.hits_early(point, 0, n as int) by {
                    assert(before.points.contains(point) <==> selection.points.contains(point) && !self.hits_early(point, 0, i as int));
                }
            }
        }
    }
}

/// A region selects exactly the points that it hits beside those selected before; where it shrinks
/// the selection, it takes exactly those away.
pub proof fn region_changes_what_it_hits(looked: Looked, selection: LayerSelection)
    ensures
        looked.region.change != SelectionChange::Shrink ==> forall|point: ManipulatorPointId| #[trigger]
            looked.look(selection).points.contains(point) <==> selection.points.contains(point) || looked.hits(point),
        looked.region.change == SelectionChange::Shrink ==> forall|point: ManipulatorPointId| #[trigger]
            looked.look(selection).points.contains(point) <==> selection.points.contains(point) && !looked.hits(point),
{
    let segments = looked.vector.graph.segments.len();
    let points = looked.vector.graph.points.len();
    let middle = looked.look_at_segments(selection, segments);
    looked.lemma_segments(selection, segments);
    looked.lemma_anchors(middle, points);
    assert forall|point: ManipulatorPointId| #[trigger] looked.hits(point) <==> looked.hits_early(point, segments as int, 0)
        || looked.hits_early(point, 0, points as int) by {}
    let after = looked.look(selection);
    if looked.region.change != SelectionChange::Shrink {
        assert forall|point: ManipulatorPointId| #[trigger] after.points.contains(point) <==> selection.points.contains(point) || looked.hits(
            point,
        ) by {
            assert(middle.points.contains(point) <==> selection.points.contains(point) || looked.hits_early(point, segments as int, 0));
        }
    } else {
        assert forall|point: ManipulatorPointId| #[trigger] after.points.contains(point) <==> selection.points.contains(point) && !looked.hits(
            point,
        ) by {
            assert(middle.points.contains(point) <==> selection.points.contains(point) && !looked.hits_early(point, segments as int, 0));
        }
    }
}

/// What looking at the first segments does to the selected segments.
proof fn lemma_region_segments(looked: Looked, selection: LayerSelection, n: nat, id: SegmentId)
    requires
        n <= looked.vector.graph.segments.len(),
    ensures
        looked.region.change != SelectionChange::Shrink ==> (looked.look_at_segments(selection, n).segments.contains(id)
            <==> selection.segments.contains(id) || hits_segment_before(looked, id, n as int)),
        looked.region.change == SelectionChange::Shrink ==> (looked.look_at_segments(selection, n).segments.contains(id)
            <==> selection.segments.contains(id) && !hits_segment_before(looked, id, n as int)),
    decreases n,
{
    if n > 0 {
        let i = n - 1;
        lemma_region_segments(looked, selection, i as nat, id);
        let own = looked.vector.graph.segments[i].id;
        let before = looked.look_at_segments(selection, i as nat);
        inserting_adds_one_item(before.segments, own);
        removing_takes_one_item(before.segments, own);
        assert(hits_segment_before(looked, id, n as int) <==> hits_segment_before(looked, id, i as int) || (id == own && looked.hits_segment(i))) by {
            assert(looked.vector.graph.segments[i].id == own);
        }
        let with_segment = looked.change_segment(before, own, looked.hits_segment(i));
        assert(looked.look_at_segments(selection, n).segments == with_segment.segments);
        assert(with_segment.segments.contains(id) <==> if !looked.hits_segment(i) {
            before.segments.contains(id)
        } else if looked.region.change == SelectionChange::Shrink {
            before.segments.contains(id) && id != own
        } else {
            before.segments.contains(id) || id == own
        });
    }
}

/// Whether one of the first segments, with the identifier, is to be selected or deselected.
pub open spec fn hits_segment_before(looked: Looked, id: SegmentId, n: int) -> bool {
    exists|i: int| 0 <= i < n && (#[trigger] looked.vector.graph.segments[i]).id == id && looked.hits_segment(i)
}

proof fn lemma_anchors_keep_segments(looked: Looked, selection: LayerSelection, n: nat)
    ensures
        looked.look_at_anchors(selection, n).segments == selection.segments,
    decreases n,
{
    if n > 0 {
        lemma_anchors_keep_segments(looked, selection, (n - 1) as nat);
    }
}

/// A region selects exactly the segments that it hits beside those selected before; where it shrinks the selection,
/// it takes exactly those away. So it only adds segments, or only takes segments away.
pub proof fn region_changes_segments_one_way(looked: Looked, selection: LayerSelection, id: SegmentId)
    ensures
        ({
            let after = looked.look(selection).segments;
            let is_hit = hits_segment_before(looked, id, looked.vector.graph.segments.len() as int);
            if looked.region.change != SelectionChange::Shrink {
                &&& after.contains(id) <==> selection.segments.contains(id) || is_hit
                &&& selection.segments.contains(id) ==> after.contains(id)
            } else {
                &&& after.contains(id) <==> selection.segments.contains(id) && !is_hit
                &&& after.contains(id) ==> selection.segments.contains(id)
            }
        }),
{
    let segments = looked.vector.graph.segments.len();
    lemma_region_segments(looked, selection, segments, id);
    lemma_anchors_keep_segments(looked, looked.look_at_segments(selection, segments), looked.vector.graph.points.len());
}

/// The selection of a layer before the region is looked at.
pub open spec fn cleared(change: SelectionChange) -> spec_fn(LayerEntry) -> LayerSelection {
    |entry: LayerEntry|
        if change == SelectionChange::Clear {
            entry.selection.clear_points().clear_segments()
        } else {
            entry.selection
        }
}

/// The selection of a layer after the region has been looked at.
pub open spec fn selected_in_region(document: DocumentView, region: Region, tests: Seq<LayerTestsView>, visible: Seq<ManipulatorPointInfo>) -> spec_fn(LayerEntry) -> LayerSelection {
    |entry: LayerEntry|
        match (document.vector(entry.layer), find_first(tests, tests_are_of(entry.layer))) {
            (Some(vector), Some(found)) => Looked { vector, region, tests: found, visible }.look(cleared(region.change)(entry)),
            _ => cleared(region.change)(entry),
        }
}

/// Whether the layer has a shape.
pub open spec fn has_shape(document: DocumentView) -> spec_fn(LayerEntry) -> bool {
    |entry: LayerEntry| document.vector(entry.layer) is Some
}

/// Whether the region is a lasso without an inside.
pub open spec fn is_empty_lasso(shape: SelectionShape) -> bool {
    shape matches SelectionShape::Lasso(polygon) && polygon@.len() < 2
}

/// The selection after the region has been looked at. At the first layer with a shape a lasso without
/// an inside ends it.
pub open spec fn select_region(
    state: ShapeSelection,
    document: DocumentView,
    region: Region,
    tests: Seq<LayerTestsView>,
    visible: Seq<ManipulatorPointInfo>,
) -> ShapeSelection {
    if is_empty_lasso(region.shape) {
        match first_index(state.layers, has_shape(document)) {
            Some(i) => ShapeSelection { layers: changed_until(state.layers, cleared(region.change), i + 1), ..state },
            None => state.change_all(cleared(region.change)),
        }
    } else {
        state.change_all(selected_in_region(document, region, tests, visible))
    }
}

/// Whether a position of the layer is in the region.
fn compute_in_region(region: Region, transform: DAffine2, position: DVec2, in_lasso: bool) -> (result: bool)
    ensures
        result == in_region(region, transform, position, in_lasso),
{
    match region.shape {
        SelectionShape::Box(quad) => {
            let p: DVec2 = transform_point(transform, position);
            at_most(lower(quad.0, quad.1), p) && at_most(p, upper(quad.0, quad.1))
        },
        SelectionShape::Lasso(_) => in_lasso,
    }
}

/// Whether a segment is in the region.
fn compute_segment_in_region(region: Region, transform: DAffine2, tests: &SegmentTests) -> (result: bool)
    ensures
        result == segment_in_region(region, transform, tests@),
{
    match region.shape {
        SelectionShape::Box(quad) => {
            let enclosed: bool = at_most(lower(quad.0, quad.1), transform_point(transform, tests.bounds.0)) && at_most(
                transform_point(transform, tests.bounds.1),
                upper(quad.0, quad.1),
            );
            enclosed || (region.mode != SelectionMode::Enclosed && tests.crosses_box)
        },
        SelectionShape::Lasso(_) => {
            let wanted: bool = region.mode != SelectionMode::Enclosed;
            let mut i: usize = 0;
            while i < tests.samples_in_lasso.len()
                invariant
                    i <= tests.samples_in_lasso.len(),
                    region.shape is Lasso,
                    wanted == (region.mode != SelectionMode::Enclosed),
                    forall|j: int| 0 <= j < i ==> #[trigger] tests.samples_in_lasso@[j] != wanted,
                decreases tests.samples_in_lasso.len() - i,
            {
                if tests.samples_in_lasso[i] == wanted {
                    proof {
                        assert(tests@.samples_in_lasso[i as int] == wanted);
                    }
                    return wanted;
                }
                i += 1;
            }
            !wanted
        },
    }
}

/// Selects or deselects a point that is hit.
fn change_point(change: SelectionChange, state: &mut SelectedLayerState, point: ManipulatorPointId)
    requires
        old(state)@.wf(),
    ensures
        final(state)@.wf(),
        final(state)@ == if change == SelectionChange::Shrink {
            old(state)@.deselect_point(point)
        } else {
            old(state)@.select_point(point)
        },
{
    if change == SelectionChange::Shrink {
        state.deselect_point(point);
    } else {
        state.select_point(point);
    }
}

/// Whether the handle is to be selected or deselected.
fn compute_hits_handle(
    vector: &VectorLayer,
    region: Region,
    visible: &Vec<ManipulatorPointInfo>,
    handle: HandleId,
    position: Option<DVec2>,
    in_lasso: bool,
    looked: Ghost<Looked>,
) -> (result: bool)
    requires
        vector@.graph.wf(),
        looked@.vector == vector@,
        looked@.region == region,
        looked@.visible == visible@,
    ensures
        result == looked@.hits_handle(handle, position, in_lasso),
{
    match position {
        None => false,
        Some(p) => {
            let point_id: ManipulatorPointId = handle.to_manipulator_point();
            compute_in_region(region, vector.to_viewport, p, in_lasso) && contains_info(
                visible,
                ManipulatorPointInfo { layer: vector.layer, point_id },
            ) && (region.change == SelectionChange::Shrink || handle.is_longer(&vector.vector_data, splat(0)))
        },
    }
}

/// Looks at a layer.
fn look(vector: &VectorLayer, region: Region, tests: &LayerTests, visible: &Vec<ManipulatorPointInfo>, state: &mut SelectedLayerState)
    requires
        vector@.graph.wf(),
        old(state)@.wf(),
        tests@.segments.len() == vector@.graph.segments.len(),
        region.shape is Lasso ==> tests@.anchors_in_lasso.len() == vector@.graph.points.len(),
    ensures
        final(state)@.wf(),
        final(state)@ == (Looked { vector: vector@, region, tests: tests@, visible: visible@ }).look(old(state)@),
{
    let vector_data: &VectorData = &vector.vector_data;
    let ghost looked = Looked { vector: vector@, region, tests: tests@, visible: visible@ };
    let ghost start = state@;
    let mut i: usize = 0;
    while i < vector_data.segments.len()
        invariant
            i <= vector_data.segments.len(),
            vector_data@ == vector@.graph,
            vector@.graph.wf(),
            looked == (Looked { vector: vector@, region, tests: tests@, visible: visible@ }),
            tests@.segments.len() == vector@.graph.segments.len(),
            state@.wf(),
            state@ == looked.look_at_segments(start, i as nat),
        decreases vector_data.segments.len() - i,
    {
        let segment: Segment = vector_data.segments[i];
        proof {
            assert(vector@.graph.segments[i as int] == segment);
            assert(tests@.segments[i as int] == tests.segments@[i as int]@);
        }
        let bezier: Bezier = vector_data.bezier(segment);
        if region.select_segments && compute_segment_in_region(region, vector.to_viewport, &tests.segments[i]) {
            if region.change == SelectionChange::Shrink {
                state.deselect_segment(segment.id);
            } else {
                state.select_segment(segment.id);
            }
        }
        let start_hit: bool = compute_hits_handle(
            vector,
            region,
            visible,
            HandleId::primary(segment.id),
            bezier.handle_start(),
            tests.segments[i].start_handle_in_lasso,
            Ghost(looked),
        );
        if start_hit {
            change_point(region.change, state, ManipulatorPointId::PrimaryHandle(segment.id));
        }
        let end_hit: bool = compute_hits_handle(
            vector,
            region,
            visible,
            HandleId::end(segment.id),
            bezier.handle_end(),
            tests.segments[i].end_handle_in_lasso,
            Ghost(looked),
        );
        if end_hit {
            change_point(region.change, state, ManipulatorPointId::EndHandle(segment.id));
        }
        i += 1;
    }
    let ghost middle = state@;
    let is_lasso: bool = matches!(region.shape, SelectionShape::Lasso(_));
    let mut k: usize = 0;
    while k < vector_data.points.len()
        invariant
            k <= vector_data.points.len(),
            vector_data@ == vector@.graph,
            looked == (Looked { vector: vector@, region, tests: tests@, visible: visible@ }),
            is_lasso == (region.shape is Lasso),
            is_lasso ==> tests@.anchors_in_lasso.len() == vector@.graph.points.len(),
            state@.wf(),
            state@ == looked.look_at_anchors(middle, k as nat),
        decreases vector_data.points.len() - k,
    {
        let in_lasso: bool = is_lasso && tests.anchors_in_lasso[k];
        if compute_in_region(region, vector.to_viewport, vector_data.points[k].position, in_lasso) {
            change_point(region.change, state, ManipulatorPointId::Anchor(vector_data.points[k].id));
        }
        k += 1;
    }
}

/// The tests of the layer.
fn lookup_tests(tests: &Vec<LayerTests>, layer: LayerNodeIdentifier) -> (found: Option<&LayerTests>)
    ensures
        match found {
            Some(f) => find_first(tests_view(tests@), tests_are_of(layer)) == Some(f@),
            None => find_first(tests_view(tests@), tests_are_of(layer)) is None,
        },
{
    let ghost list = tests_view(tests@);
    let mut i: usize = 0;
    while i < tests.len()
        invariant
            i <= tests.len(),
            list == tests_view(tests@),
            forall|j: int| 0 <= j < i ==> !tests_are_of(layer)(#[trigger] list[j]),
        decreases tests.len() - i,
    {
        proof {
            assert(list[i as int] == tests@[i as int]@);
        }
        if tests[i].layer == layer {
            proof {
                lemma_first_index_is(list, tests_are_of(layer), i as int);
            }
            return Some(&tests[i]);
        }
        i += 1;
    }
    proof {
        lemma_first_index_none(list, tests_are_of(layer));
    }
    None
}

impl ShapeState {
    /// Selects, or deselects, all in the region: the segments if they are asked for, the handles that
    /// are visible, and the anchors.
    ///
    /// The `tests` say of each segment what only its curve shows, and for a lasso of each segment and anchor what only
    /// the polygon shows.
    pub fn select_all_in_shape(&mut self, document: &Document, region: Region, tests: &Vec<LayerTests>, visible: &Vec<ManipulatorPointInfo>)
        requires
            old(self)@.wf(),
            document@.wf(),
            forall|i: int|
                0 <= i < old(self)@.layers.len() ==> is_tested(
                    document@,
                    region,
                    tests_view(tests@),
                    (#[trigger] old(self)@.layers[i]).layer,
                ),
        ensures
            final(self)@ == select_region(old(self)@, document@, region, tests_view(tests@), visible@),
            final(self)@.wf(),
    {
        let is_empty: bool = match region.shape {
            SelectionShape::Lasso(polygon) => polygon.len() < 2,
            SelectionShape::Box(_) => false,
        };
        let ghost before = self@;
        let ghost change = if is_empty_lasso(region.shape) {
            cleared(region.change)
        } else {
            selected_in_region(document@, region, tests_view(tests@), visible@)
        };
        proof {
            lemma_changed_ends(before.layers, change);
        }
        let mut i: usize = 0;
        while i < self.selected_shape_state.entries.len()
            invariant
                i <= self.selected_shape_state.entries.len(),
                before.wf(),
                before == old(self)@,
                self@.wf(),
                document@.wf(),
                is_empty == is_empty_lasso(region.shape),
                change == (if is_empty_lasso(region.shape) {
                    cleared(region.change)
                } else {
                    selected_in_region(document@, region, tests_view(tests@), visible@)
                }),
                forall|k: int|
                    0 <= k < before.layers.len() ==> is_tested(
                        document@,
                        region,
                        tests_view(tests@),
                        (#[trigger] before.layers[k]).layer,
                    ),
                is_empty ==> forall|k: int| 0 <= k < i ==> !has_shape(document@)(#[trigger] before.layers[k]),
                self.selected_shape_state.entries.len() == before.layers.len(),
                self@ == (ShapeSelection {
                    layers: changed_until(before.layers, change, i as int),
                    ..before
                }),
            decreases self.selected_shape_state.entries.len() - i,
        {
            proof {
                lemma_changed_step(before.layers, change, i as int);
                assert(self@.layers[i as int].selection.wf());
                assert(is_tested(document@, region, tests_view(tests@), before.layers[i as int].layer));
            }
            let ghost layers = self@.layers;
            let layer: LayerNodeIdentifier = self.selected_shape_state.entries[i].layer;
            if region.change == SelectionChange::Clear {
                self.selected_shape_state.entries[i].state.clear_points();
                self.selected_shape_state.entries[i].state.clear_segments();
            }
            if let Some(vector) = document.compute_modified_vector(layer) {
                if is_empty {
                    proof {
                        assert(self@.layers == layers.update(i as int, self@.layers[i as int]));
                        lemma_first_index_is(before.layers, has_shape(document@), i as int);
                    }
                    return;
                }
                if let Some(found) = lookup_tests(tests, layer) {
                    look(vector, region, found, visible, &mut self.selected_shape_state.entries[i].state);
                }
            }
            proof {
                assert(self@.layers == layers.update(i as int, self@.layers[i as int]));
            }
            i += 1;
        }
        proof {
            lemma_changed_ends(before.layers, change);
            if is_empty {
                lemma_first_index_none(before.layers, has_shape(document@));
            }
        }
    }
}

/// A box selects the anchors that are shown in it: those whose positions in the viewport are not below its lower corner
/// and not above its upper corner, whatever corners it was drawn between. It takes them out of the selection if that is
/// to shrink; otherwise it adds them to what was selected, or to nothing if that is cleared.
pub proof fn a_box_selects_the_anchors_shown_in_it(
    state: ShapeSelection,
    document: DocumentView,
    region: Region,
    tests: Seq<LayerTestsView>,
    visible: Seq<ManipulatorPointInfo>,
    quad: (DVec2, DVec2),
    vector: ShapeLayer,
    i: int,
    id: PointId,
)
    requires
        region.shape == SelectionShape::Box(quad),
        0 <= i < state.layers.len(),
        document.vector(state.layers[i].layer) == Some(vector),
        is_tested(document, region, tests, state.layers[i].layer),
    ensures
        ({
            let point = ManipulatorPointId::Anchor(id);
            let before = state.layers[i].selection.points.contains(point);
            let after = select_region(state, document, region, tests, visible).layers[i].selection.points.contains(point);
            let shown = exists|k: int|
                {
                    &&& 0 <= k < vector.graph.points.len()
                    &&& (#[trigger] vector.graph.points[k]).id == id
                    &&& is_at_most(lower_of(quad.0, quad.1), transformed_point(vector.to_viewport, vector.graph.points[k].position))
                    &&& is_at_most(transformed_point(vector.to_viewport, vector.graph.points[k].position), upper_of(quad.0, quad.1))
                };
            after == match region.change {
                SelectionChange::Clear => shown,
                SelectionChange::Shrink => before && !shown,
                SelectionChange::Extend => before || shown,
            }
        }),
{
    let found = find_first(tests, tests_are_of(state.layers[i].layer))->0;
    let looked = Looked { vector, region, tests: found, visible };
    let base = cleared(region.change)(state.layers[i]);
    region_changes_what_it_hits(looked, base);
    assert(select_region(state, document, region, tests, visible).layers[i].selection == looked.look(base));
    let point = ManipulatorPointId::Anchor(id);
    assert(looked.look(base).points.contains(point) == if region.change == SelectionChange::Shrink {
        base.points.contains(point) && !looked.hits(point)
    } else {
        base.points.contains(point) || looked.hits(point)
    });
    assert forall|k: int| 0 <= k < vector.graph.points.len() implies looked.hits_anchor(k) == (is_at_most(
        lower_of(quad.0, quad.1),
        transformed_point(vector.to_viewport, (#[trigger] vector.graph.points[k]).position),
    ) && is_at_most(transformed_point(vector.to_viewport, vector.graph.points[k].position), upper_of(quad.0, quad.1))) by {}
}

/// A box that clears the selection selects the handles that are shown in it, that are visible, and that are not on top of
/// their anchors.
pub proof fn a_box_selects_the_handles_shown_in_it(
    state: ShapeSelection,
    document: DocumentView,
    region: Region,
    tests: Seq<LayerTestsView>,
    visible: Seq<ManipulatorPointInfo>,
    quad: (DVec2, DVec2),
    vector: ShapeLayer,
    i: int,
    id: SegmentId,
)
    requires
        region.shape == SelectionShape::Box(quad),
        region.change == SelectionChange::Clear,
        0 <= i < state.layers.len(),
        document.vector(state.layers[i].layer) == Some(vector),
        is_tested(document, region, tests, state.layers[i].layer),
    ensures
        ({
            let after = select_region(state, document, region, tests, visible).layers[i].selection.points;
            let shown = |position: Option<DVec2>|
                position matches Some(p) && is_at_most(lower_of(quad.0, quad.1), transformed_point(vector.to_viewport, p)) && is_at_most(
                    transformed_point(vector.to_viewport, p),
                    upper_of(quad.0, quad.1),
                );
            &&& after.contains(ManipulatorPointId::PrimaryHandle(id)) <==> exists|k: int|
                {
                    &&& 0 <= k < vector.graph.segments.len()
                    &&& (#[trigger] vector.graph.segments[k]).id == id
                    &&& shown(vector.graph.bezier(vector.graph.segments[k]).handle_start())
                    &&& visible.contains(ManipulatorPointInfo { layer: vector.layer, point_id: ManipulatorPointId::PrimaryHandle(id) })
                    &&& vector.graph.is_longer(HandleId::primary(id), zero())
                }
            &&& after.contains(ManipulatorPointId::EndHandle(id)) <==> exists|k: int|
                {
                    &&& 0 <= k < vector.graph.segments.len()
                    &&& (#[trigger] vector.graph.segments[k]).id == id
                    &&& shown(vector.graph.bezier(vector.graph.segments[k]).handle_end())
                    &&& visible.contains(ManipulatorPointInfo { layer: vector.layer, point_id: ManipulatorPointId::EndHandle(id) })
                    &&& vector.graph.is_longer(HandleId::end(id), zero())
                }
        }),
{
    let found = find_first(tests, tests_are_of(state.layers[i].layer))->0;
    let looked = Looked { vector, region, tests: found, visible };
    let base = cleared(region.change)(state.layers[i]);
    region_changes_what_it_hits(looked, base);
    assert(select_region(state, document, region, tests, visible).layers[i].selection == looked.look(base));
    let (start, end) = (ManipulatorPointId::PrimaryHandle(id), ManipulatorPointId::EndHandle(id));
    assert(looked.look(base).points.contains(start) == looked.hits(start));
    assert(looked.look(base).points.contains(end) == looked.hits(end));
}

/// A box selects, where segments are asked for, the segments whose own boxes are shown in it, and those that cross its
/// border unless only enclosed ones are wanted.
pub proof fn a_box_selects_the_segments_shown_in_it(
    state: ShapeSelection,
    document: DocumentView,
    region: Region,
    tests: Seq<LayerTestsView>,
    visible: Seq<ManipulatorPointInfo>,
    quad: (DVec2, DVec2),
    vector: ShapeLayer,
    found: LayerTestsView,
    i: int,
    id: SegmentId,
)
    requires
        region.shape == SelectionShape::Box(quad),
        region.change == SelectionChange::Clear,
        0 <= i < state.layers.len(),
        document.vector(state.layers[i].layer) == Some(vector),
        is_tested(document, region, tests, state.layers[i].layer),
        find_first(tests, tests_are_of(state.layers[i].layer)) == Some(found),
    ensures
        select_region(state, document, region, tests, visible).layers[i].selection.segments.contains(id) <==> exists|k: int|
            {
                &&& 0 <= k < vector.graph.segments.len()
                &&& (#[trigger] vector.graph.segments[k]).id == id
                &&& region.select_segments
                &&& {
                    ||| is_at_most(lower_of(quad.0, quad.1), transformed_point(vector.to_viewport, found.segments[k].bounds.0)) && is_at_most(
                        transformed_point(vector.to_viewport, found.segments[k].bounds.1),
                        upper_of(quad.0, quad.1),
                    )
                    ||| region.mode != SelectionMode::Enclosed && found.segments[k].crosses_box
                }
            },
{
    let looked = Looked { vector, region, tests: found, visible };
    let base = cleared(region.change)(state.layers[i]);
    region_changes_segments_one_way(looked, base, id);
    assert(select_region(state, document, region, tests, visible).layers[i].selection == looked.look(base));
}

} // verus!
