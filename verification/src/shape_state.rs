//! What is selected in the layers whose shapes can be edited.
use vstd::prelude::*;

use crate::document::Document;
use crate::id_set::IdSet;
use crate::ids::{LayerNodeIdentifier, ManipulatorPointId, PointId, SegmentId};
use crate::selection::{is_anchor, is_handle, LayerSelection, SelectedLayerState};
use crate::sequences::{
    append_copies, first_index, lemma_filter_take_ends, lemma_filter_take_step, lemma_first_index, lemma_first_index_is, lemma_first_index_none,
    lemma_flat_map_take_ends, lemma_flat_map_take_step,
};

verus! {

/// A layer and what is selected in it.
#[derive(Debug)]
pub struct SelectedLayer {
    pub layer: LayerNodeIdentifier,
    pub state: SelectedLayerState,
}

/// The layers whose shapes can be edited, each with what is selected in it.
#[derive(Debug)]
pub struct SelectedShapeState {
    pub entries: Vec<SelectedLayer>,
}

/// The selection of the path tool.
#[derive(Debug)]
pub struct ShapeState {
    /// The layers we can select and edit manipulators (anchors and handles) from.
    pub selected_shape_state: SelectedShapeState,
    /// Whether handles are left out for now, because they are not shown.
    pub ignore_handles: bool,
    /// Whether anchors are left out for now, because they are not shown.
    pub ignore_anchors: bool,
}

/// A layer and its selection, as mathematical values.
pub struct LayerEntry {
    pub layer: LayerNodeIdentifier,
    pub selection: LayerSelection,
}

/// The selection of the path tool, as mathematical values.
pub struct ShapeSelection {
    pub layers: Seq<LayerEntry>,
    pub ignore_handles: bool,
    pub ignore_anchors: bool,
}

impl View for SelectedLayer {
    type V = LayerEntry;

    open spec fn view(&self) -> LayerEntry {
        LayerEntry { layer: self.layer, selection: self.state@ }
    }
}

impl View for ShapeState {
    type V = ShapeSelection;

    open spec fn view(&self) -> ShapeSelection {
        ShapeSelection {
            layers: self.selected_shape_state.entries@.map_values(|entry: SelectedLayer| entry@),
            ignore_handles: self.ignore_handles,
            ignore_anchors: self.ignore_anchors,
        }
    }
}

/// Whether the entry is that of the layer.
pub open spec fn entry_is(layer: LayerNodeIdentifier) -> spec_fn(LayerEntry) -> bool {
    |entry: LayerEntry| entry.layer == layer
}

/// Whether the entry is that of one of the layers.
pub open spec fn entry_among(layers: Seq<LayerNodeIdentifier>) -> spec_fn(LayerEntry) -> bool {
    |entry: LayerEntry| layers.contains(entry.layer)
}

/// The entries with one for the layer, where nothing is selected if it is new.
pub open spec fn with_layer(entries: Seq<LayerEntry>, layer: LayerNodeIdentifier) -> Seq<LayerEntry> {
    match first_index(entries, entry_is(layer)) {
        Some(_) => entries,
        None => entries.push(LayerEntry { layer, selection: LayerSelection::nothing() }),
    }
}

/// The entries with one for each of the layers.
pub open spec fn with_layers(entries: Seq<LayerEntry>, layers: Seq<LayerNodeIdentifier>) -> Seq<LayerEntry>
    decreases layers.len(),
{
    if layers.len() == 0 {
        entries
    } else {
        with_layer(with_layers(entries, layers.drop_last()), layers.last())
    }
}

/// The selected points of an entry.
pub open spec fn points_of() -> spec_fn(LayerEntry) -> Seq<ManipulatorPointId> {
    |entry: LayerEntry| entry.selection.points
}

/// The selected segments of an entry.
pub open spec fn segments_of() -> spec_fn(LayerEntry) -> Seq<SegmentId> {
    |entry: LayerEntry| entry.selection.segments
}

/// A change of what is selected in each layer.
pub open spec fn changed(entries: Seq<LayerEntry>, change: spec_fn(LayerEntry) -> LayerSelection) -> Seq<LayerEntry> {
    entries.map_values(
        |entry: LayerEntry|
            LayerEntry { layer: entry.layer, selection: change(entry) },
    )
}

/// A change of what is selected in the first layers.
pub open spec fn changed_until(entries: Seq<LayerEntry>, change: spec_fn(LayerEntry) -> LayerSelection, n: int) -> Seq<LayerEntry> {
    Seq::new(
        entries.len(),
        |i: int|
            if i < n {
                LayerEntry { layer: entries[i].layer, selection: change(entries[i]) }
            } else {
                entries[i]
            },
    )
}

pub proof fn lemma_changed_step(entries: Seq<LayerEntry>, change: spec_fn(LayerEntry) -> LayerSelection, i: int)
    requires
        0 <= i < entries.len(),
    ensures
        changed_until(entries, change, i)[i] == entries[i],
        changed_until(entries, change, i).update(
            i,
            LayerEntry { layer: entries[i].layer, selection: change(entries[i]) },
        ) == changed_until(entries, change, i + 1),
{
}

pub proof fn lemma_changed_ends(entries: Seq<LayerEntry>, change: spec_fn(LayerEntry) -> LayerSelection)
    ensures
        changed_until(entries, change, 0) == entries,
        changed_until(entries, change, entries.len() as int) == changed(entries, change),
{
    assert(changed_until(entries, change, 0) == entries);
    assert(changed_until(entries, change, entries.len() as int) == changed(entries, change));
}

impl ShapeSelection {
    /// Each layer has one entry, in which nothing is listed twice.
    pub open spec fn wf(self) -> bool {
        &&& forall|i: int, j: int|
            0 <= i < j < self.layers.len() ==> (#[trigger] self.layers[i]).layer != (
            #[trigger] self.layers[j]).layer
        &&& forall|i: int|
            0 <= i < self.layers.len() ==> (#[trigger] self.layers[i]).selection.wf()
    }

    /// The index of the entry of the layer.
    pub open spec fn index_of(self, layer: LayerNodeIdentifier) -> Option<int> {
        first_index(self.layers, entry_is(layer))
    }

    /// What is selected in the layer, if it can be edited.
    pub open spec fn selection_in(self, layer: LayerNodeIdentifier) -> Option<LayerSelection> {
        match self.index_of(layer) {
            Some(i) => Some(self.layers[i].selection),
            None => None,
        }
    }

    /// All selected points, layer by layer.
    pub open spec fn points(self) -> Seq<ManipulatorPointId> {
        self.layers.flat_map(points_of())
    }

    /// All selected segments, layer by layer.
    pub open spec fn segments(self) -> Seq<SegmentId> {
        self.layers.flat_map(segments_of())
    }

    /// The same change in each layer.
    pub open spec fn change_all(self, change: spec_fn(LayerEntry) -> LayerSelection) -> ShapeSelection {
        ShapeSelection { layers: changed(self.layers, change), ..self }
    }

    /// A change in one layer.
    pub open spec fn set_selection(self, i: int, selection: LayerSelection) -> ShapeSelection {
        ShapeSelection {
            layers: self.layers.update(i, LayerEntry { layer: self.layers[i].layer, selection }),
            ..self
        }
    }

    /// Anchors are shown (`status`) in every layer or left out.
    pub open spec fn show_anchors(self, status: bool) -> ShapeSelection {
        if self.layers.len() == 0 {
            self
        } else {
            ShapeSelection {
                layers: changed(self.layers, |e: LayerEntry| e.selection.show_anchors(status)),
                ignore_anchors: !status,
                ..self
            }
        }
    }

    /// Handles are shown (`status`) in every layer or left out.
    pub open spec fn show_handles(self, status: bool) -> ShapeSelection {
        if self.layers.len() == 0 {
            self
        } else {
            ShapeSelection {
                layers: changed(self.layers, |e: LayerEntry| e.selection.show_handles(status)),
                ignore_handles: !status,
                ..self
            }
        }
    }

    /// Whether a layer can be edited.
    pub open spec fn is_editable(self) -> spec_fn(LayerNodeIdentifier) -> bool {
        |layer: LayerNodeIdentifier| self.index_of(layer) is Some
    }

    /// Those of the layers that can be edited.
    pub open spec fn sorted_layers(self, layers: Seq<LayerNodeIdentifier>) -> Seq<LayerNodeIdentifier> {
        layers.filter(self.is_editable())
    }

    /// The anchor is selected in the layer, and only it unless the selection is extended.
    pub open spec fn select_anchor_point_by_id(self, layer: LayerNodeIdentifier, id: PointId, extend_selection: bool) -> ShapeSelection {
        let base = if extend_selection {
            self
        } else {
            self.change_all(|e: LayerEntry| e.selection.clear_points())
        };
        match base.index_of(layer) {
            Some(i) => base.set_selection(
                i,
                base.layers[i].selection.select_point(ManipulatorPointId::Anchor(id)),
            ),
            None => base,
        }
    }

    /// Whether points of this kind are left out.
    pub open spec fn is_point_ignored(self, point: ManipulatorPointId) -> bool {
        (point.as_handle() is Some && self.ignore_handles) || (point.as_anchor() is Some
            && self.ignore_anchors)
    }
}

/// Removing an entry keeps the others apart.
proof fn lemma_remove_keeps_wf(layers: Seq<LayerEntry>, i: int)
    requires
        0 <= i < layers.len(),
        forall|a: int, b: int|
            0 <= a < b < layers.len() ==> (#[trigger] layers[a]).layer != (#[trigger] layers[b]).layer,
        forall|a: int| 0 <= a < layers.len() ==> (#[trigger] layers[a]).selection.wf(),
    ensures
        forall|a: int, b: int|
            0 <= a < b < layers.len() - 1 ==> (#[trigger] layers.remove(i)[a]).layer != (
            #[trigger] layers.remove(i)[b]).layer,
        forall|a: int|
            0 <= a < layers.len() - 1 ==> (#[trigger] layers.remove(i)[a]).selection.wf(),
{
    assert forall|a: int, b: int| 0 <= a < b < layers.len() - 1 implies (
    #[trigger] layers.remove(i)[a]).layer != (#[trigger] layers.remove(i)[b]).layer by {
        let x = if a < i { a } else { a + 1 };
        let y = if b < i { b } else { b + 1 };
        assert(layers.remove(i)[a] == layers[x]);
        assert(layers.remove(i)[b] == layers[y]);
    }
    assert forall|a: int| 0 <= a < layers.len() - 1 implies (
    #[trigger] layers.remove(i)[a]).selection.wf() by {
        let x = if a < i { a } else { a + 1 };
        assert(layers.remove(i)[a] == layers[x]);
    }
}

/// Whether the layer is among the layers.
pub(crate) fn contains_layer(layers: &Vec<LayerNodeIdentifier>, layer: LayerNodeIdentifier) -> (result: bool)
    ensures
        result == layers@.contains(layer),
{
    let mut i: usize = 0;
    while i < layers.len()
        invariant
            i <= layers.len(),
            forall|j: int| 0 <= j < i ==> layers@[j] != layer,
        decreases layers.len() - i,
    {
        if layers[i] == layer {
            return true;
        }
        i += 1;
    }
    false
}

impl ShapeState {
    /// No layer can be edited and nothing is left out.
    pub fn new() -> (state: Self)
        ensures
            state@.wf(),
            state@ == (ShapeSelection {
                layers: Seq::empty(),
                ignore_handles: false,
                ignore_anchors: false,
            }),
    {
        let state = ShapeState {
            selected_shape_state: SelectedShapeState { entries: Vec::new() },
            ignore_handles: false,
            ignore_anchors: false,
        };
        proof {
            assert(state@.layers == Seq::<LayerEntry>::empty());
        }
        state
    }

    /// The index of the entry of the layer.
    pub fn index_of(&self, layer: LayerNodeIdentifier) -> (index: Option<usize>)
        ensures
            index is Some == self@.index_of(layer) is Some,
            index matches Some(i) ==> self@.index_of(layer) == Some(i as int)
                && i < self@.layers.len() && self@.layers[i as int].layer == layer,
    {
        let mut i: usize = 0;
        while i < self.selected_shape_state.entries.len()
            invariant
                i <= self.selected_shape_state.entries.len(),
                forall|j: int| 0 <= j < i ==> !entry_is(layer)(#[trigger] self@.layers[j]),
            decreases self.selected_shape_state.entries.len() - i,
        {
            if self.selected_shape_state.entries[i].layer == layer {
                proof {
                    lemma_first_index_is(self@.layers, entry_is(layer), i as int);
                }
                return Some(i);
            }
            i += 1;
        }
        proof {
            lemma_first_index_none(self@.layers, entry_is(layer));
        }
        None
    }

    pub fn is_selected_layer(&self, layer: LayerNodeIdentifier) -> (result: bool)
        ensures
            result == self@.index_of(layer) is Some,
    {
        self.index_of(layer).is_some()
    }

    /// Whether points of this kind are left out, because they are not shown.
    pub fn is_point_ignored(&self, point: &ManipulatorPointId) -> (result: bool)
        ensures
            result == self@.is_point_ignored(*point),
    {
        (point.as_handle().is_some() && self.ignore_handles) || (point.as_anchor().is_some()
            && self.ignore_anchors)
    }

    pub fn has_selected_layers(&self) -> (result: bool)
        ensures
            result == (self@.layers.len() != 0),
    {
        self.selected_shape_state.entries.len() != 0
    }

    /// Deselects all points (anchors and handles) across every selected layer.
    pub fn deselect_all_points(&mut self)
        requires
            old(self)@.wf(),
        ensures
            final(self)@ == old(self)@.change_all(|e: LayerEntry| e.selection.clear_points()),
            final(self)@.wf(),
    {
        let ghost change = |e: LayerEntry| e.selection.clear_points();
        let ghost before = self@;
        proof {
            lemma_changed_ends(before.layers, change);
        }
        let mut i: usize = 0;
        while i < self.selected_shape_state.entries.len()
            invariant
                i <= self.selected_shape_state.entries.len(),
                change == |e: LayerEntry| e.selection.clear_points(),
                before.wf(),
                self@.wf(),
                self.selected_shape_state.entries.len() == before.layers.len(),
                self@ == (ShapeSelection {
                    layers: changed_until(before.layers, change, i as int),
                    ..before
                }),
            decreases self.selected_shape_state.entries.len() - i,
        {
            proof {
                lemma_changed_step(before.layers, change, i as int);
                assert(self@.layers[i as int].selection.wf());
            }
            let ghost layers = self@.layers;
            self.selected_shape_state.entries[i].state.clear_points();
            proof {
                assert(self@.layers == layers.update(i as int, self@.layers[i as int]));
            }
            i += 1;
        }
        proof {
            lemma_changed_ends(before.layers, change);
        }
    }

    /// Deselects all segments across every selected layer.
    pub fn deselect_all_segments(&mut self)
        requires
            old(self)@.wf(),
        ensures
            final(self)@ == old(self)@.change_all(|e: LayerEntry| e.selection.clear_segments()),
            final(self)@.wf(),
    {
        let ghost change = |e: LayerEntry| e.selection.clear_segments();
        let ghost before = self@;
        proof {
            lemma_changed_ends(before.layers, change);
        }
        let mut i: usize = 0;
        while i < self.selected_shape_state.entries.len()
            invariant
                i <= self.selected_shape_state.entries.len(),
                change == |e: LayerEntry| e.selection.clear_segments(),
                before.wf(),
                self@.wf(),
                self.selected_shape_state.entries.len() == before.layers.len(),
                self@ == (ShapeSelection {
                    layers: changed_until(before.layers, change, i as int),
                    ..before
                }),
            decreases self.selected_shape_state.entries.len() - i,
        {
            proof {
                lemma_changed_step(before.layers, change, i as int);
                assert(self@.layers[i as int].selection.wf());
            }
            let ghost layers = self@.layers;
            self.selected_shape_state.entries[i].state.clear_segments();
            proof {
                assert(self@.layers == layers.update(i as int, self@.layers[i as int]));
            }
            i += 1;
        }
        proof {
            lemma_changed_ends(before.layers, change);
        }
    }

    /// Deselects all the anchors across every selected layer.
    pub fn deselect_all_anchors(&mut self)
        requires
            old(self)@.wf(),
        ensures
            final(self)@ == old(self)@.change_all(|e: LayerEntry| e.selection.keep_points(is_handle())),
            final(self)@.wf(),
    {
        let ghost change = |e: LayerEntry| e.selection.keep_points(is_handle());
        let ghost before = self@;
        proof {
            lemma_changed_ends(before.layers, change);
        }
        let mut i: usize = 0;
        while i < self.selected_shape_state.entries.len()
            invariant
                i <= self.selected_shape_state.entries.len(),
                change == |e: LayerEntry| e.selection.keep_points(is_handle()),
                before.wf(),
                self@.wf(),
                self.selected_shape_state.entries.len() == before.layers.len(),
                self@ == (ShapeSelection {
                    layers: changed_until(before.layers, change, i as int),
                    ..before
                }),
            decreases self.selected_shape_state.entries.len() - i,
        {
            proof {
                lemma_changed_step(before.layers, change, i as int);
                assert(self@.layers[i as int].selection.wf());
            }
            let ghost layers = self@.layers;
            self.selected_shape_state.entries[i].state.deselect_anchors();
            proof {
                assert(self@.layers == layers.update(i as int, self@.layers[i as int]));
            }
            i += 1;
        }
        proof {
            lemma_changed_ends(before.layers, change);
        }
    }

    /// Deselects all the handles across every selected layer.
    pub fn deselect_all_handles(&mut self)
        requires
            old(self)@.wf(),
        ensures
            final(self)@ == old(self)@.change_all(|e: LayerEntry| e.selection.keep_points(is_anchor())),
            final(self)@.wf(),
    {
        let ghost change = |e: LayerEntry| e.selection.keep_points(is_anchor());
        let ghost before = self@;
        proof {
            lemma_changed_ends(before.layers, change);
        }
        let mut i: usize = 0;
        while i < self.selected_shape_state.entries.len()
            invariant
                i <= self.selected_shape_state.entries.len(),
                change == |e: LayerEntry| e.selection.keep_points(is_anchor()),
                before.wf(),
                self@.wf(),
                self.selected_shape_state.entries.len() == before.layers.len(),
                self@ == (ShapeSelection {
                    layers: changed_until(before.layers, change, i as int),
                    ..before
                }),
            decreases self.selected_shape_state.entries.len() - i,
        {
            proof {
                lemma_changed_step(before.layers, change, i as int);
                assert(self@.layers[i as int].selection.wf());
            }
            let ghost layers = self@.layers;
            self.selected_shape_state.entries[i].state.deselect_handles();
            proof {
                assert(self@.layers == layers.update(i as int, self@.layers[i as int]));
            }
            i += 1;
        }
        proof {
            lemma_changed_ends(before.layers, change);
        }
    }

    /// Selects the points in every selected layer.
    pub fn select_points_by_manipulator_id(&mut self, points: &Vec<ManipulatorPointId>)
        requires
            old(self)@.wf(),
        ensures
            final(self)@ == old(self)@.change_all(|e: LayerEntry| e.selection.select_points(points@)),
            final(self)@.wf(),
    {
        let ghost change = |e: LayerEntry| e.selection.select_points(points@);
        let ghost before = self@;
        proof {
            lemma_changed_ends(before.layers, change);
        }
        let mut i: usize = 0;
        while i < self.selected_shape_state.entries.len()
            invariant
                i <= self.selected_shape_state.entries.len(),
                change == |e: LayerEntry| e.selection.select_points(points@),
                before.wf(),
                self@.wf(),
                self.selected_shape_state.entries.len() == before.layers.len(),
                self@ == (ShapeSelection {
                    layers: changed_until(before.layers, change, i as int),
                    ..before
                }),
            decreases self.selected_shape_state.entries.len() - i,
        {
            proof {
                lemma_changed_step(before.layers, change, i as int);
                assert(self@.layers[i as int].selection.wf());
            }
            let ghost layers = self@.layers;
            self.selected_shape_state.entries[i].state.select_points(points);
            proof {
                assert(self@.layers == layers.update(i as int, self@.layers[i as int]));
            }
            i += 1;
        }
        proof {
            lemma_changed_ends(before.layers, change);
        }
    }

    /// Shows the anchors (`status`) of every selected layer or leaves them out.
    pub fn update_selected_anchors_status(&mut self, status: bool)
        requires
            old(self)@.wf(),
        ensures
            final(self)@ == old(self)@.show_anchors(status),
            final(self)@.wf(),
    {
        let ghost change = |e: LayerEntry| e.selection.show_anchors(status);
        let ghost before = self@;
        proof {
            lemma_changed_ends(before.layers, change);
        }
        let mut i: usize = 0;
        while i < self.selected_shape_state.entries.len()
            invariant
                i <= self.selected_shape_state.entries.len(),
                change == |e: LayerEntry| e.selection.show_anchors(status),
                before.wf(),
                self@.wf(),
                self.selected_shape_state.entries.len() == before.layers.len(),
                self@ == (ShapeSelection {
                    layers: changed_until(before.layers, change, i as int),
                    ignore_anchors: if i == 0 {
                        before.ignore_anchors
                    } else {
                        !status
                    },
                    ..before
                }),
            decreases self.selected_shape_state.entries.len() - i,
        {
            proof {
                lemma_changed_step(before.layers, change, i as int);
                assert(self@.layers[i as int].selection.wf());
            }
            let ghost layers = self@.layers;
            self.ignore_anchors = !status;
            self.selected_shape_state.entries[i].state.ignore_anchors(status);
            proof {
                assert(self@.layers == layers.update(i as int, self@.layers[i as int]));
            }
            i += 1;
        }
        proof {
            lemma_changed_ends(before.layers, change);
        }
    }

    /// Shows the handles (`status`) of every selected layer or leaves them out.
    pub fn update_selected_handles_status(&mut self, status: bool)
        requires
            old(self)@.wf(),
        ensures
            final(self)@ == old(self)@.show_handles(status),
            final(self)@.wf(),
    {
        let ghost change = |e: LayerEntry| e.selection.show_handles(status);
        let ghost before = self@;
        proof {
            lemma_changed_ends(before.layers, change);
        }
        let mut i: usize = 0;
        while i < self.selected_shape_state.entries.len()
            invariant
                i <= self.selected_shape_state.entries.len(),
                change == |e: LayerEntry| e.selection.show_handles(status),
                before.wf(),
                self@.wf(),
                self.selected_shape_state.entries.len() == before.layers.len(),
                self@ == (ShapeSelection {
                    layers: changed_until(before.layers, change, i as int),
                    ignore_handles: if i == 0 {
                        before.ignore_handles
                    } else {
                        !status
                    },
                    ..before
                }),
            decreases self.selected_shape_state.entries.len() - i,
        {
            proof {
                lemma_changed_step(before.layers, change, i as int);
                assert(self@.layers[i as int].selection.wf());
            }
            let ghost layers = self@.layers;
            self.ignore_handles = !status;
            self.selected_shape_state.entries[i].state.ignore_handles(status);
            proof {
                assert(self@.layers == layers.update(i as int, self@.layers[i as int]));
            }
            i += 1;
        }
        proof {
            lemma_changed_ends(before.layers, change);
        }
    }

    /// Set the shapes we consider for selection, we will choose draggable manipulators from these
    /// shapes. What is selected in a layer that stays is kept.
    pub fn set_selected_layers(&mut self, target_layers: Vec<LayerNodeIdentifier>)
        requires
            old(self)@.wf(),
        ensures
            final(self)@ == (ShapeSelection {
                layers: with_layers(
                    old(self)@.layers.filter(entry_among(target_layers@)),
                    target_layers@,
                ),
                ..old(self)@
            }),
            final(self)@.wf(),
    {
        let ghost before = self@;
        let ghost among = entry_among(target_layers@);
        let ghost mut seen: int = 0;
        proof {
            lemma_filter_take_ends(before.layers, among);
            assert(before.layers.skip(0) == before.layers);
        }
        let mut i: usize = 0;
        while i < self.selected_shape_state.entries.len()
            invariant
                i <= self.selected_shape_state.entries.len(),
                before.wf(),
                self@.wf(),
                among == entry_among(target_layers@),
                0 <= seen <= before.layers.len(),
                i == before.layers.take(seen).filter(among).len(),
                self@.layers == before.layers.take(seen).filter(among) + before.layers.skip(seen),
                self@.ignore_handles == before.ignore_handles,
                self@.ignore_anchors == before.ignore_anchors,
            decreases self.selected_shape_state.entries.len() - i,
        {
            let ghost layers = self@.layers;
            proof {
                assert(self@.layers.len() == self.selected_shape_state.entries.len());
                lemma_filter_take_step(before.layers, among, seen);
                assert(layers[i as int] == before.layers.skip(seen)[0]);
                assert(before.layers.skip(seen).drop_first() == before.layers.skip(seen + 1));
            }
            let layer: LayerNodeIdentifier = self.selected_shape_state.entries[i].layer;
            if contains_layer(&target_layers, layer) {
                i += 1;
            } else {
                self.selected_shape_state.entries.remove(i);
                proof {
                    assert(self@.layers == layers.remove(i as int));
                    lemma_remove_keeps_wf(layers, i as int);
                }
            }
            proof {
                seen = seen + 1;
                assert(self@.layers == before.layers.take(seen).filter(among) + before.layers.skip(seen));
            }
        }
        proof {
            assert(before.layers.skip(seen).len() == 0);
            lemma_filter_take_ends(before.layers, among);
        }
        let ghost kept = self@.layers;
        let mut k: usize = 0;
        while k < target_layers.len()
            invariant
                k <= target_layers.len(),
                self@.wf(),
                self@ == (ShapeSelection {
                    layers: with_layers(kept, target_layers@.take(k as int)),
                    ..before
                }),
            decreases target_layers.len() - k,
        {
            proof {
                assert(target_layers@.take(k + 1).drop_last() == target_layers@.take(k as int));
            }
            self.add_layer(target_layers[k]);
            k += 1;
        }
        proof {
            assert(target_layers@.take(k as int) == target_layers@);
        }
    }

    /// Makes the layer one that can be edited. Returns the index of its entry.
    pub fn add_layer(&mut self, layer: LayerNodeIdentifier) -> (index: usize)
        requires
            old(self)@.wf(),
        ensures
            final(self)@ == (ShapeSelection {
                layers: with_layer(old(self)@.layers, layer),
                ..old(self)@
            }),
            final(self)@.wf(),
            final(self)@.index_of(layer) == Some(index as int),
            index < final(self)@.layers.len(),
    {
        match self.index_of(layer) {
            Some(index) => index,
            None => {
                let ghost layers = self@.layers;
                let index: usize = self.selected_shape_state.entries.len();
                self.selected_shape_state.entries.push(
                    SelectedLayer { layer, state: SelectedLayerState::new() },
                );
                proof {
                    assert(self@.layers == with_layer(layers, layer));
                    lemma_first_index(layers, entry_is(layer));
                    assert forall|j: int| 0 <= j < index implies !entry_is(layer)(
                        #[trigger] self@.layers[j],
                    ) by {
                        assert(self@.layers[j] == layers[j]);
                    }
                    lemma_first_index_is(self@.layers, entry_is(layer), index as int);
                }
                index
            },
        }
    }

    /// The layers that can be edited.
    pub fn selected_layers(&self) -> (layers: Vec<LayerNodeIdentifier>)
        ensures
            layers@ == self@.layers.map_values(|e: LayerEntry| e.layer),
    {
        let mut layers: Vec<LayerNodeIdentifier> = Vec::new();
        let mut i: usize = 0;
        while i < self.selected_shape_state.entries.len()
            invariant
                i <= self.selected_shape_state.entries.len(),
                layers@ == self@.layers.map_values(|e: LayerEntry| e.layer).take(i as int),
            decreases self.selected_shape_state.entries.len() - i,
        {
            layers.push(self.selected_shape_state.entries[i].layer);
            i += 1;
        }
        layers
    }

    /// The layers that can be edited, in order from top to bottom.
    pub fn sorted_selected_layers(&self, document: &Document) -> (layers: Vec<LayerNodeIdentifier>)
        ensures
            layers@ == self@.sorted_layers(document@.layers),
    {
        let mut layers: Vec<LayerNodeIdentifier> = Vec::new();
        let ghost editable = self@.is_editable();
        proof {
            lemma_filter_take_ends(document@.layers, editable);
        }
        let mut i: usize = 0;
        while i < document.layers.len()
            invariant
                i <= document.layers.len(),
                editable == self@.is_editable(),
                layers@ == document@.layers.take(i as int).filter(editable),
            decreases document.layers.len() - i,
        {
            proof {
                lemma_filter_take_step(document@.layers, editable, i as int);
            }
            if self.is_selected_layer(document.layers[i]) {
                layers.push(document.layers[i]);
            }
            i += 1;
        }
        layers
    }

    /// The currently selected points of all layers.
    pub fn selected_points(&self) -> (points: Vec<ManipulatorPointId>)
        ensures
            points@ == self@.points(),
    {
        let mut points: Vec<ManipulatorPointId> = Vec::new();
        proof {
            lemma_flat_map_take_ends(self@.layers, points_of());
        }
        let mut i: usize = 0;
        while i < self.selected_shape_state.entries.len()
            invariant
                i <= self.selected_shape_state.entries.len(),
                points@ == self@.layers.take(i as int).flat_map(points_of()),
            decreases self.selected_shape_state.entries.len() - i,
        {
            proof {
                lemma_flat_map_take_step(self@.layers, points_of(), i as int);
            }
            append_copies(&mut points, &self.selected_shape_state.entries[i].state.selected_points.items);
            i += 1;
        }
        points
    }

    /// The currently selected segments of all layers.
    pub fn selected_segments(&self) -> (segments: Vec<SegmentId>)
        ensures
            segments@ == self@.segments(),
    {
        let mut segments: Vec<SegmentId> = Vec::new();
        proof {
            lemma_flat_map_take_ends(self@.layers, segments_of());
        }
        let mut i: usize = 0;
        while i < self.selected_shape_state.entries.len()
            invariant
                i <= self.selected_shape_state.entries.len(),
                segments@ == self@.layers.take(i as int).flat_map(segments_of()),
            decreases self.selected_shape_state.entries.len() - i,
        {
            proof {
                lemma_flat_map_take_step(self@.layers, segments_of(), i as int);
            }
            append_copies(&mut segments, &self.selected_shape_state.entries[i].state.selected_segments.items);
            i += 1;
        }
        segments
    }

    /// The selected points of the layer, if it can be edited.
    pub fn selected_points_in_layer(&self, layer: LayerNodeIdentifier) -> (points: Option<&IdSet<ManipulatorPointId>>)
        ensures
            points is Some == self@.selection_in(layer) is Some,
            points matches Some(p) ==> self@.selection_in(layer)->0.points == p@,
    {
        match self.index_of(layer) {
            Some(i) => Some(&self.selected_shape_state.entries[i].state.selected_points),
            None => None,
        }
    }

    /// The selected segments of the layer, if it can be edited.
    pub fn selected_segments_in_layer(&self, layer: LayerNodeIdentifier) -> (segments: Option<&IdSet<SegmentId>>)
        ensures
            segments is Some == self@.selection_in(layer) is Some,
            segments matches Some(s) ==> self@.selection_in(layer)->0.segments == s@,
    {
        match self.index_of(layer) {
            Some(i) => Some(&self.selected_shape_state.entries[i].state.selected_segments),
            None => None,
        }
    }

    /// Selects the anchor in the layer, and only it unless the selection is extended.
    pub fn select_anchor_point_by_id(&mut self, layer: LayerNodeIdentifier, id: PointId, extend_selection: bool)
        requires
            old(self)@.wf(),
        ensures
            final(self)@ == old(self)@.select_anchor_point_by_id(layer, id, extend_selection),
            final(self)@.wf(),
    {
        if !extend_selection {
            self.deselect_all_points();
        }
        match self.index_of(layer) {
            Some(i) => {
                let ghost before = self@;
                proof {
                    assert(before.layers[i as int].selection.wf());
                }
                self.selected_shape_state.entries[i].state.select_point(ManipulatorPointId::Anchor(id));
                proof {
                    assert(self@.layers == before.set_selection(
                        i as int,
                        before.layers[i as int].selection.select_point(ManipulatorPointId::Anchor(id)),
                    ).layers);
                }
            },
            None => {},
        }
    }
}

} // verus!
