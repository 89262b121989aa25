//! Selecting what hangs together.
use vstd::prelude::*;

use crate::document::{Document, DocumentView};
use crate::id_set::{inserting_adds_one_item, with_all, IdSet};
use crate::ids::{LayerNodeIdentifier, ManipulatorPointId, PointId, SegmentId};
use crate::selection::{LayerSelection, SelectedLayerState};
use crate::sequences::{
    lemma_distinct_items_fit, lemma_filter_map_members, lemma_filter_map_take_ends, lemma_filter_map_take_step,
};
use crate::shape_state::{changed_until, lemma_changed_ends, lemma_changed_step, with_layer, LayerEntry, ShapeSelection, ShapeState};
use crate::vector_data::{neighbor_of, Segment, VectorData, VectorGraph};

verus! {

/// The points as anchors that can be selected.
pub open spec fn as_anchors(points: Seq<PointId>) -> Seq<ManipulatorPointId> {
    points.map_values(|point: PointId| ManipulatorPointId::Anchor(point))
}

/// All anchors of the layer, and no handles, are selected if it has a shape.
pub open spec fn all_anchors(document: DocumentView) -> spec_fn(LayerEntry) -> LayerSelection {
    |entry: LayerEntry|
        match document.vector(entry.layer) {
            None => entry.selection,
            Some(vector) => entry.selection.clear_points().select_points(as_anchors(vector.graph.point_ids())),
        }
}

/// Whether the points follow one another along segments.
pub open spec fn is_walk(graph: VectorGraph, walk: Seq<PointId>) -> bool {
    forall|i: int| 0 <= i < walk.len() - 1 ==> #[trigger] graph.connected_points(walk[i]).contains(walk[i + 1])
}

/// Whether a walk along segments leads from one of the points to the point.
pub open spec fn is_reachable(graph: VectorGraph, from: Seq<PointId>, point: PointId) -> bool {
    exists|walk: Seq<PointId>|
        {
            &&& walk.len() > 0
            &&& from.contains(walk[0])
            &&& walk.last() == point
            &&& #[trigger] is_walk(graph, walk)
        }
}

/// Whether an end of the segment can be reached.
pub open spec fn is_segment_reachable(graph: VectorGraph, from: Seq<PointId>, segment: Segment) -> bool {
    is_reachable(graph, from, graph.points[segment.start as int].id) || is_reachable(
        graph,
        from,
        graph.points[segment.end as int].id,
    )
}

/// The segment, if an end of it can be reached.
pub open spec fn reachable_segment(graph: VectorGraph, from: Seq<PointId>) -> spec_fn(Segment) -> Option<SegmentId> {
    |segment: Segment|
        if is_segment_reachable(graph, from, segment) {
            Some(segment.id)
        } else {
            None
        }
}

/// What is selected in a layer after all that hangs together with the clicked points has been
/// selected: its anchors, its segments, or both. Without clicked points that is everything.
pub open spec fn is_connected_selection(
    graph: VectorGraph,
    clicked: Seq<PointId>,
    points: bool,
    segments: bool,
    before: LayerSelection,
    after: LayerSelection,
) -> bool {
    let ids = graph.segments.map_values(|segment: Segment| segment.id);
    &&& after == (LayerSelection { points: after.points, segments: after.segments, ..before })
    &&& after.points.no_duplicates()
    &&& forall|point: ManipulatorPointId| #[trigger]
        after.points.contains(point) <==> {
            &&& points
            &&& point matches ManipulatorPointId::Anchor(anchor)
            &&& if clicked.len() == 0 {
                graph.point_ids().contains(anchor)
            } else {
                is_reachable(graph, clicked, anchor)
            }
        }
    &&& after.segments == if !segments {
        before.segments
    } else if clicked.len() == 0 {
        with_all(before.segments, ids)
    } else {
        with_all(before.segments, graph.segments.filter_map(reachable_segment(graph, clicked)))
    }
}

/// The anchors that inserting a sequence of points selects.
proof fn lemma_with_all_members<T>(items: Seq<T>, more: Seq<T>)
    requires
        items.no_duplicates(),
    ensures
        with_all(items, more).no_duplicates(),
        forall|item: T| #[trigger] with_all(items, more).contains(item) <==> items.contains(item) || more.contains(item),
    decreases more.len(),
{
    if more.len() > 0 {
        let rest = more.drop_last();
        lemma_with_all_members(items, rest);
        let before = with_all(items, rest);
        inserting_adds_one_item(before, more.last());
        assert forall|item: T| #[trigger] with_all(items, more).contains(item) <==> items.contains(item) || more.contains(item) by {
            if more.contains(item) {
                let k = choose|k: int| 0 <= k < more.len() && more[k] == item;
                if k < rest.len() {
                    assert(rest[k] == item);
                }
            }
            if rest.contains(item) {
                let k = choose|k: int| 0 <= k < rest.len() && rest[k] == item;
                assert(more[k] == item);
            }
            assert(more[more.len() - 1] == more.last());
        }
    }
}

/// A walk stays within a set of points that holds its start and all neighbors of its members.
proof fn lemma_walk_stays(graph: VectorGraph, walk: Seq<PointId>, set: Seq<PointId>, n: int)
    requires
        is_walk(graph, walk),
        0 <= n < walk.len(),
        set.contains(walk[0]),
        forall|point: PointId, neighbor: PointId|
            set.contains(point) && #[trigger] graph.connected_points(point).contains(neighbor) ==> set.contains(neighbor),
    ensures
        set.contains(walk[n]),
    decreases n,
{
    if n > 0 {
        lemma_walk_stays(graph, walk, set, n - 1);
        assert(graph.connected_points(walk[n - 1]).contains(walk[n - 1 + 1]));
    }
}

/// A neighbor of a point that can be reached can be reached.
proof fn lemma_neighbor_is_reachable(graph: VectorGraph, from: Seq<PointId>, point: PointId, neighbor: PointId)
    requires
        is_reachable(graph, from, point),
        graph.connected_points(point).contains(neighbor),
    ensures
        is_reachable(graph, from, neighbor),
{
    let walk = choose|walk: Seq<PointId>|
        {
            &&& walk.len() > 0
            &&& from.contains(walk[0])
            &&& walk.last() == point
            &&& #[trigger] is_walk(graph, walk)
        };
    let longer = walk.push(neighbor);
    assert forall|i: int| 0 <= i < longer.len() - 1 implies #[trigger] graph.connected_points(longer[i]).contains(longer[i + 1]) by {
        if i < walk.len() - 1 {
            assert(longer[i] == walk[i] && longer[i + 1] == walk[i + 1]);
            assert(graph.connected_points(walk[i]).contains(walk[i + 1]));
        } else {
            assert(longer[i] == point && longer[i + 1] == neighbor);
        }
    }
    assert(is_walk(graph, longer));
    assert(longer.last() == neighbor && longer[0] == walk[0]);
}

/// The points that a point is joined to are points of the shape.
proof fn lemma_neighbors_are_points(graph: VectorGraph, point: PointId)
    requires
        graph.wf(),
    ensures
        forall|neighbor: PointId| #[trigger] graph.connected_points(point).contains(neighbor) ==> graph.point_ids().contains(neighbor),
{
    if let Some(index) = graph.point_index(point) {
        let f = neighbor_of(graph.points, index);
        lemma_filter_map_members(graph.segments, f);
        assert forall|neighbor: PointId| #[trigger] graph.connected_points(point).contains(neighbor) implies graph.point_ids().contains(neighbor) by {
            let i = choose|i: int| 0 <= i < graph.segments.len() && f(#[trigger] graph.segments[i]) == Some(neighbor);
            let segment = graph.segments[i];
            assert(graph.point_ids()[segment.start as int] == graph.points[segment.start as int].id);
            assert(graph.point_ids()[segment.end as int] == graph.points[segment.end as int].id);
        }
    }
}

/// The points that can be reached from the clicked ones.
fn connected_to(vector_data: &VectorData, clicked: &Vec<PointId>) -> (connected: IdSet<PointId>)
    requires
        vector_data@.wf(),
    ensures
        connected.wf(),
        forall|point: PointId| #[trigger] connected@.contains(point) <==> is_reachable(vector_data@, clicked@, point),
{
    let ghost graph = vector_data@;
    let ghost known = clicked@ + graph.point_ids();
    let mut stack: Vec<PointId> = Vec::new();
    let mut connected: IdSet<PointId> = IdSet::new();
    let mut i: usize = 0;
    while i < clicked.len()
        invariant
            i <= clicked.len(),
            stack@ == clicked@.take(i as int),
        decreases clicked.len() - i,
    {
        stack.push(clicked[i]);
        i += 1;
    }
    proof {
        assert(stack@ == clicked@);
        assert forall|point: PointId| #[trigger] clicked@.contains(point) implies is_reachable(graph, clicked@, point) && known.contains(point) by {
            let walk = seq![point];
            assert(is_walk(graph, walk) && walk.last() == point);
            let k = choose|k: int| 0 <= k < clicked@.len() && clicked@[k] == point;
            assert(known[k] == point);
        }
    }
    while stack.len() > 0
        invariant
            graph == vector_data@,
            graph.wf(),
            known == clicked@ + graph.point_ids(),
            connected.wf(),
            forall|point: PointId| #[trigger] stack@.contains(point) ==> is_reachable(graph, clicked@, point) && known.contains(point),
            forall|point: PointId| #[trigger] connected@.contains(point) ==> is_reachable(graph, clicked@, point) && known.contains(point),
            forall|point: PointId| #[trigger] clicked@.contains(point) ==> connected@.contains(point) || stack@.contains(point),
            forall|point: PointId, neighbor: PointId|
                connected@.contains(point) && #[trigger] graph.connected_points(point).contains(neighbor) ==> connected@.contains(neighbor)
                    || stack@.contains(neighbor),
        decreases known.len() - connected@.len(), stack.len(),
    {
        let ghost stack_before = stack@;
        let ghost connected_before = connected@;
        let point: PointId = stack.pop().unwrap();
        proof {
            assert(stack_before.last() == point && stack_before.contains(point));
            assert forall|p: PointId| #[trigger] stack_before.contains(p) implies p == point || stack@.contains(p) by {
                let k = choose|k: int| 0 <= k < stack_before.len() && stack_before[k] == p;
                if k < stack@.len() {
                    assert(stack@[k] == p);
                }
            }
            assert forall|p: PointId| #[trigger] stack@.contains(p) implies stack_before.contains(p) by {
                let k = choose|k: int| 0 <= k < stack@.len() && stack@[k] == p;
                assert(stack_before[k] == p);
            }
        }
        if !connected.contains(point) {
            proof {
                inserting_adds_one_item(connected@, point);
                lemma_neighbors_are_points(graph, point);
            }
            connected.insert(point);
            let neighbors: Vec<PointId> = vector_data.connected_points(point);
            let ghost stack_popped = stack@;
            let mut k: usize = 0;
            while k < neighbors.len()
                invariant
                    k <= neighbors.len(),
                    stack@ == stack_popped + neighbors@.take(k as int),
                decreases neighbors.len() - k,
            {
                stack.push(neighbors[k]);
                k += 1;
            }
            proof {
                assert(neighbors@.take(k as int) == neighbors@);
                assert forall|p: PointId| #[trigger] stack@.contains(p) <==> stack_popped.contains(p) || neighbors@.contains(p) by {
                    if stack_popped.contains(p) {
                        let j = choose|j: int| 0 <= j < stack_popped.len() && stack_popped[j] == p;
                        assert(stack@[j] == p);
                    }
                    if neighbors@.contains(p) {
                        let j = choose|j: int| 0 <= j < neighbors@.len() && neighbors@[j] == p;
                        assert(stack@[stack_popped.len() + j] == p);
                    }
                }
                assert forall|p: PointId| #[trigger] stack@.contains(p) implies is_reachable(graph, clicked@, p) && known.contains(p) by {
                    if neighbors@.contains(p) {
                        lemma_neighbor_is_reachable(graph, clicked@, point, p);
                        assert(graph.point_ids().contains(p));
                        let j = choose|j: int| 0 <= j < graph.point_ids().len() && graph.point_ids()[j] == p;
                        assert(known[clicked@.len() + j] == p);
                    }
                }
                lemma_distinct_items_fit(connected@, known);
                assert(connected@ == connected_before.push(point));
            }
        }
    }
    proof {
        assert forall|point: PointId| is_reachable(graph, clicked@, point) implies #[trigger] connected@.contains(point) by {
            let walk = choose|walk: Seq<PointId>|
                {
                    &&& walk.len() > 0
                    &&& clicked@.contains(walk[0])
                    &&& walk.last() == point
                    &&& #[trigger] is_walk(graph, walk)
                };
            lemma_walk_stays(graph, walk, connected@, walk.len() - 1);
        }
    }
    connected
}

/// The anchors of the points.
fn to_anchors(points: &Vec<PointId>) -> (anchors: Vec<ManipulatorPointId>)
    ensures
        anchors@ == as_anchors(points@),
{
    let mut anchors: Vec<ManipulatorPointId> = Vec::new();
    let mut i: usize = 0;
    while i < points.len()
        invariant
            i <= points.len(),
            anchors@ == as_anchors(points@).take(i as int),
        decreases points.len() - i,
    {
        anchors.push(ManipulatorPointId::Anchor(points[i]));
        i += 1;
    }
    proof {
        assert(as_anchors(points@).take(i as int) == as_anchors(points@));
    }
    anchors
}

/// The identifiers of the points of the shape.
fn collect_point_ids(vector_data: &VectorData) -> (ids: Vec<PointId>)
    ensures
        ids@ == vector_data@.point_ids(),
{
    let mut ids: Vec<PointId> = Vec::new();
    let mut i: usize = 0;
    while i < vector_data.points.len()
        invariant
            i <= vector_data.points.len(),
            ids@ == vector_data@.point_ids().take(i as int),
        decreases vector_data.points.len() - i,
    {
        ids.push(vector_data.points[i].id);
        i += 1;
    }
    proof {
        assert(vector_data@.point_ids().take(i as int) == vector_data@.point_ids());
    }
    ids
}

/// What holds of the anchors that are selected from scratch.
proof fn lemma_selected_anchors(ids: Seq<PointId>)
    ensures
        with_all(Seq::<ManipulatorPointId>::empty(), as_anchors(ids)).no_duplicates(),
        forall|point: ManipulatorPointId| #[trigger]
            with_all(Seq::<ManipulatorPointId>::empty(), as_anchors(ids)).contains(point) <==> {
                &&& point matches ManipulatorPointId::Anchor(anchor)
                &&& ids.contains(anchor)
            },
{
    let none = Seq::<ManipulatorPointId>::empty();
    lemma_with_all_members(none, as_anchors(ids));
    assert forall|point: ManipulatorPointId| #[trigger] as_anchors(ids).contains(point) <==> {
        &&& point matches ManipulatorPointId::Anchor(anchor)
        &&& ids.contains(anchor)
    } by {
        if as_anchors(ids).contains(point) {
            let k = choose|k: int| 0 <= k < ids.len() && as_anchors(ids)[k] == point;
            assert(ids[k] == point->Anchor_0);
        }
        if let ManipulatorPointId::Anchor(anchor) = point {
            if ids.contains(anchor) {
                let k = choose|k: int| 0 <= k < ids.len() && ids[k] == anchor;
                assert(as_anchors(ids)[k] == point);
            }
        }
    }
}

/// Selects all that hangs together with the clicked points.
fn select_connected_in(vector_data: &VectorData, clicked: &Vec<PointId>, points: bool, segments: bool, state: &mut SelectedLayerState)
    requires
        vector_data@.wf(),
        old(state)@.wf(),
    ensures
        is_connected_selection(vector_data@, clicked@, points, segments, old(state)@, final(state)@),
        final(state)@.wf(),
{
    let ghost graph = vector_data@;
    state.clear_points();
    let connected: IdSet<PointId> = connected_to(vector_data, clicked);
    let selected: Vec<PointId> = if clicked.len() == 0 {
        collect_point_ids(vector_data)
    } else {
        connected.items
    };
    let anchors: Vec<ManipulatorPointId> = to_anchors(&selected);
    proof {
        lemma_selected_anchors(selected@);
    }
    if points {
        state.select_points(&anchors);
    }
    let ghost before = state@;
    if segments {
        let all: bool = clicked.len() == 0;
        let ghost ids = graph.segments.map_values(|segment: Segment| segment.id);
        let ghost image = reachable_segment(graph, clicked@);
        let mut found: Vec<SegmentId> = Vec::new();
        proof {
            lemma_filter_map_take_ends(graph.segments, image);
        }
        let mut i: usize = 0;
        while i < vector_data.segments.len()
            invariant
                i <= vector_data.segments.len(),
                graph == vector_data@,
                graph.wf(),
                all == (clicked@.len() == 0),
                image == reachable_segment(graph, clicked@),
                ids == graph.segments.map_values(|segment: Segment| segment.id),
                !all ==> forall|point: PointId| #[trigger] selected@.contains(point) <==> is_reachable(graph, clicked@, point),
                all ==> found@ == ids.take(i as int),
                !all ==> found@ == graph.segments.take(i as int).filter_map(image),
            decreases vector_data.segments.len() - i,
        {
            proof {
                lemma_filter_map_take_step(graph.segments, image, i as int);
                assert(ids.take(i + 1) == ids.take(i as int).push(ids[i as int]));
                assert(graph.segments[i as int].start < graph.points.len());
            }
            let segment: Segment = vector_data.segments[i];
            let start: PointId = vector_data.points[segment.start].id;
            let end: PointId = vector_data.points[segment.end].id;
            if all || holds(&selected, start) || holds(&selected, end) {
                found.push(segment.id);
            }
            i += 1;
        }
        proof {
            assert(ids.take(i as int) == ids);
        }
        let mut k: usize = 0;
        while k < found.len()
            invariant
                k <= found.len(),
                state@.wf(),
                state@ == (LayerSelection { segments: with_all(before.segments, found@.take(k as int)), ..before }),
            decreases found.len() - k,
        {
            proof {
                assert(found@.take(k + 1).drop_last() == found@.take(k as int));
            }
            state.select_segment(found[k]);
            k += 1;
        }
        proof {
            assert(found@.take(k as int) == found@);
        }
    }
}

/// Whether the point is among the points.
fn holds(points: &Vec<PointId>, point: PointId) -> (result: bool)
    ensures
        result == points@.contains(point),
{
    let mut i: usize = 0;
    while i < points.len()
        invariant
            i <= points.len(),
            forall|j: int| 0 <= j < i ==> points@[j] != point,
        decreases points.len() - i,
    {
        if points[i] == point {
            return true;
        }
        i += 1;
    }
    false
}

impl ShapeState {
    /// Selects all anchors connected to the clicked subpaths, and deselects all handles, for the
    /// given layer. The `clicked` points are the first ones of the subpaths that were clicked.
    pub fn select_connected(&mut self, document: &Document, layer: LayerNodeIdentifier, clicked: &Vec<PointId>, points: bool, segments: bool)
        requires
            old(self)@.wf(),
            document@.wf(),
        ensures
            final(self)@.wf(),
            document@.vector(layer) is None ==> final(self)@ == old(self)@,
            document@.vector(layer) matches Some(vector) ==> {
                let base = ShapeSelection { layers: with_layer(old(self)@.layers, layer), ..old(self)@ };
                let i = base.index_of(layer)->0;
                &&& base.index_of(layer) is Some
                &&& final(self)@ == base.set_selection(i, final(self)@.layers[i].selection)
                &&& is_connected_selection(
                    vector.graph,
                    clicked@,
                    points,
                    segments,
                    base.layers[i].selection,
                    final(self)@.layers[i].selection,
                )
            },
    {
        if let Some(vector) = document.compute_modified_vector(layer) {
            let i: usize = self.add_layer(layer);
            let ghost base = self@;
            proof {
                assert(base.layers[i as int].selection.wf());
            }
            select_connected_in(&vector.vector_data, clicked, points, segments, &mut self.selected_shape_state.entries[i].state);
            proof {
                assert(self@.layers == base.set_selection(i as int, self@.layers[i as int].selection).layers);
            }
        }
    }

    /// Selects all anchors, and deselects all handles, for a layer given its identifier and
    /// selection.
    fn select_all_anchors_in_layer_with_state(document: &Document, layer: LayerNodeIdentifier, state: &mut SelectedLayerState)
        requires
            old(state)@.wf(),
        ensures
            final(state)@ == all_anchors(document@)(LayerEntry { layer, selection: old(state)@ }),
            final(state)@.wf(),
    {
        if let Some(vector) = document.compute_modified_vector(layer) {
            state.clear_points();
            let ids: Vec<PointId> = collect_point_ids(&vector.vector_data);
            let anchors: Vec<ManipulatorPointId> = to_anchors(&ids);
            state.select_points(&anchors);
        }
    }

    /// Selects all anchors, and deselects all handles, for the given layer.
    pub fn select_all_anchors_in_layer(&mut self, document: &Document, layer: LayerNodeIdentifier)
        requires
            old(self)@.wf(),
        ensures
            final(self)@.wf(),
            final(self)@ == ({
                let base = ShapeSelection { layers: with_layer(old(self)@.layers, layer), ..old(self)@ };
                let i = base.index_of(layer)->0;
                base.set_selection(i, all_anchors(document@)(base.layers[i]))
            }),
    {
        let i: usize = self.add_layer(layer);
        let ghost base = self@;
        proof {
            assert(base.layers[i as int].selection.wf());
            crate::sequences::lemma_first_index(base.layers, crate::shape_state::entry_is(layer));
        }
        Self::select_all_anchors_in_layer_with_state(document, layer, &mut self.selected_shape_state.entries[i].state);
        proof {
            assert(base.layers[i as int].layer == layer);
            assert(self@.layers == base.set_selection(i as int, all_anchors(document@)(base.layers[i as int])).layers);
        }
    }

    /// Selects all anchors, and deselects all handles, for the selected layers.
    pub fn select_all_anchors_in_selected_layers(&mut self, document: &Document)
        requires
            old(self)@.wf(),
        ensures
            final(self)@ == old(self)@.change_all(all_anchors(document@)),
            final(self)@.wf(),
    {
        let ghost change = all_anchors(document@);
        let ghost before = self@;
        proof {
            lemma_changed_ends(before.layers, change);
        }
        let mut i: usize = 0;
        while i < self.selected_shape_state.entries.len()
            invariant
                i <= self.selected_shape_state.entries.len(),
                change == all_anchors(document@),
                before.wf(),
                self@.wf(),
                self.selected_shape_state.entries.len() == before.layers.len(),
                self@ == (ShapeSelection {
                    layers: changed_until(before.layers, change, i as int),
                    ..before
                }),
            decreases self.selected_shape_state.entries.len() - i,
        {
            proof {
                lemma_changed_step(before.layers, change, i as int);
                assert(self@.layers[i as int].selection.wf());
            }
            let ghost layers = self@.layers;
            let layer: LayerNodeIdentifier = self.selected_shape_state.entries[i].layer;
            Self::select_all_anchors_in_layer_with_state(document, layer, &mut self.selected_shape_state.entries[i].state);
            proof {
                assert(self@.layers == layers.update(i as int, self@.layers[i as int]));
            }
            i += 1;
        }
        proof {
            lemma_changed_ends(before.layers, change);
        }
    }
}

} // verus!
