//! What holds of selections whatever is done to them.
use vstd::prelude::*;

use crate::id_set::{inserting_adds_one_item, removing_takes_one_item, with, with_all};
use crate::ids::{LayerNodeIdentifier, ManipulatorPointId};
use crate::selection::{is_anchor, is_handle, is_outside, LayerSelection};
use crate::sequences::{
    find_first, first_index, lemma_filter_members, lemma_first_index, lemma_first_index_is, lemma_first_index_none, lemma_flat_map_take_ends,
    lemma_flat_map_take_step,
};
use crate::shape_state::{changed, entry_among, entry_is, points_of, segments_of, with_layer, with_layers, LayerEntry, ShapeSelection};

verus! {

/// Membership after several insertions: the new items and what was there before.
pub proof fn inserting_adds_the_items<T>(items: Seq<T>, more: Seq<T>)
    ensures
        forall|other: T| #[trigger] with_all(items, more).contains(other) <==> items.contains(other) || more.contains(other),
    decreases more.len(),
{
    if more.len() > 0 {
        let rest = more.drop_last();
        inserting_adds_the_items(items, rest);
        inserting_adds_one_item(with_all(items, rest), more.last());
        assert forall|other: T| #[trigger]
            with_all(items, more).contains(other) <==> items.contains(other) || more.contains(other) by {
            assert(more.contains(other) <==> rest.contains(other) || other == more.last()) by {
                if more.contains(other) {
                    let k = choose|k: int| 0 <= k < more.len() && more[k] == other;
                    if k < rest.len() {
                        assert(rest[k] == other);
                    }
                }
                if rest.contains(other) {
                    let k = choose|k: int| 0 <= k < rest.len() && rest[k] == other;
                    assert(more[k] == other);
                }
                assert(more[more.len() - 1] == more.last());
            }
            assert(with_all(items, rest).contains(other) <==> items.contains(other) || rest.contains(other));
        }
    } else {
        assert forall|other: T| #[trigger]
            with_all(items, more).contains(other) <==> items.contains(other) || more.contains(other) by {
            assert(!more.contains(other));
        }
    }
}

/// Whether two selections hold the same, apart from the order.
pub open spec fn same_selection(a: LayerSelection, b: LayerSelection) -> bool {
    &&& forall|point: ManipulatorPointId| #[trigger] a.points.contains(point) <==> b.points.contains(point)
    &&& a.segments == b.segments
    &&& a.ignore_handles == b.ignore_handles
    &&& a.ignore_anchors == b.ignore_anchors
    &&& a.ignored_handle_points == b.ignored_handle_points
    &&& a.ignored_anchor_points == b.ignored_anchor_points
}

impl LayerSelection {
    /// Points are set aside only while their kind is left out, and only those of that kind.
    pub open spec fn is_tidy(self) -> bool {
        &&& !self.ignore_handles ==> self.ignored_handle_points == Seq::<ManipulatorPointId>::empty()
        &&& !self.ignore_anchors ==> self.ignored_anchor_points == Seq::<ManipulatorPointId>::empty()
        &&& forall|point: ManipulatorPointId| #[trigger] self.ignored_handle_points.contains(point) ==> is_handle()(point)
        &&& forall|point: ManipulatorPointId| #[trigger] self.ignored_anchor_points.contains(point) ==> is_anchor()(point)
    }
}

/// Points are set aside only while they are left out, from the first selection on: no change of what is
/// selected or shown breaks that.
pub proof fn only_hidden_points_are_set_aside(selection: LayerSelection, status: bool)
    requires
        selection.is_tidy(),
    ensures
        LayerSelection::nothing().is_tidy(),
        selection.show_handles(status).is_tidy(),
        selection.show_anchors(status).is_tidy(),
{
    let handles = selection.points.filter(is_handle());
    lemma_filter_members(selection.points, is_handle());
    inserting_adds_the_items(selection.ignored_handle_points, handles);
    let anchors = selection.points.filter(is_anchor());
    lemma_filter_members(selection.points, is_anchor());
    inserting_adds_the_items(selection.ignored_anchor_points, anchors);
    let hidden = selection.show_handles(status);
    assert forall|point: ManipulatorPointId| #[trigger] hidden.ignored_handle_points.contains(point) implies is_handle()(point) by {
        if handles.contains(point) {
        } else if selection.ignored_handle_points.contains(point) {
        }
    }
    let without_anchors = selection.show_anchors(status);
    assert forall|point: ManipulatorPointId| #[trigger] without_anchors.ignored_anchor_points.contains(point) implies is_anchor()(
        point,
    ) by {
        if anchors.contains(point) {
        } else if selection.ignored_anchor_points.contains(point) {
        }
    }
}

/// While handles are left out, no handle is selected and every selected anchor still is. Showing them
/// again brings back what was selected.
pub proof fn hidden_handles_come_back(selection: LayerSelection)
    requires
        selection.is_tidy(),
        !selection.ignore_handles,
    ensures
        forall|point: ManipulatorPointId| #[trigger]
            selection.show_handles(false).points.contains(point) <==> selection.points.contains(point) && !is_handle()(point),
        same_selection(selection.show_handles(false).show_handles(true), selection),
{
    let pred = is_handle();
    let chosen = selection.points.filter(pred);
    let ignored = with_all(selection.ignored_handle_points, chosen);
    lemma_filter_members(selection.points, pred);
    inserting_adds_the_items(selection.ignored_handle_points, chosen);
    lemma_filter_members(selection.points, is_outside(ignored));
    let hidden = selection.show_handles(false);
    assert forall|point: ManipulatorPointId| #[trigger] ignored.contains(point) <==> selection.points.contains(point) && pred(point) by {
        assert(!selection.ignored_handle_points.contains(point));
        assert(ignored.contains(point) <==> chosen.contains(point));
    }
    assert forall|point: ManipulatorPointId| #[trigger]
        hidden.points.contains(point) <==> selection.points.contains(point) && !pred(point) by {
        assert(hidden.points.contains(point) <==> is_outside(ignored)(point) && selection.points.contains(point));
        assert(is_outside(ignored)(point) <==> !ignored.contains(point));
    }
    inserting_adds_the_items(hidden.points, ignored);
    let shown = hidden.show_handles(true);
    assert forall|point: ManipulatorPointId| #[trigger] shown.points.contains(point) <==> selection.points.contains(point) by {
        assert(shown.points.contains(point) <==> hidden.points.contains(point) || ignored.contains(point));
    }
}

/// While anchors are left out, no anchor is selected and every selected handle still is. Showing them
/// again brings back what was selected.
pub proof fn hidden_anchors_come_back(selection: LayerSelection)
    requires
        selection.is_tidy(),
        !selection.ignore_anchors,
    ensures
        forall|point: ManipulatorPointId| #[trigger]
            selection.show_anchors(false).points.contains(point) <==> selection.points.contains(point) && !is_anchor()(point),
        same_selection(selection.show_anchors(false).show_anchors(true), selection),
{
    let pred = is_anchor();
    let chosen = selection.points.filter(pred);
    let ignored = with_all(selection.ignored_anchor_points, chosen);
    lemma_filter_members(selection.points, pred);
    inserting_adds_the_items(selection.ignored_anchor_points, chosen);
    lemma_filter_members(selection.points, is_outside(ignored));
    let hidden = selection.show_anchors(false);
    assert forall|point: ManipulatorPointId| #[trigger] ignored.contains(point) <==> selection.points.contains(point) && pred(point) by {
        assert(!selection.ignored_anchor_points.contains(point));
        assert(ignored.contains(point) <==> chosen.contains(point));
    }
    assert forall|point: ManipulatorPointId| #[trigger]
        hidden.points.contains(point) <==> selection.points.contains(point) && !pred(point) by {
        assert(hidden.points.contains(point) <==> is_outside(ignored)(point) && selection.points.contains(point));
        assert(is_outside(ignored)(point) <==> !ignored.contains(point));
    }
    inserting_adds_the_items(hidden.points, ignored);
    let shown = hidden.show_anchors(true);
    assert forall|point: ManipulatorPointId| #[trigger] shown.points.contains(point) <==> selection.points.contains(point) by {
        assert(shown.points.contains(point) <==> hidden.points.contains(point) || ignored.contains(point));
    }
}

/// A selected point can be deselected again, and what else is selected stays as it is.
pub proof fn deselecting_undoes_selecting(selection: LayerSelection, point: ManipulatorPointId)
    requires
        !selection.points.contains(point),
    ensures
        selection.select_point(point).points.contains(point),
        same_selection(selection.select_point(point).deselect_point(point), selection),
{
    inserting_adds_one_item(selection.points, point);
    removing_takes_one_item(with(selection.points, point), point);
    let after = selection.select_point(point).deselect_point(point);
    assert forall|other: ManipulatorPointId| #[trigger] after.points.contains(other) <==> selection.points.contains(other) by {
        assert(with(selection.points, point).contains(other) <==> other == point || selection.points.contains(other));
    }
}

/// Whether the layers of the entries are all different.
spec fn has_distinct_layers(entries: Seq<LayerEntry>) -> bool {
    forall|i: int, j: int| 0 <= i < j < entries.len() ==> (#[trigger] entries[i]).layer != (#[trigger] entries[j]).layer
}

/// The layers that can be edited after others were made editable, and what is selected in them.
proof fn lemma_with_layers(entries: Seq<LayerEntry>, layers: Seq<LayerNodeIdentifier>, layer: LayerNodeIdentifier)
    ensures
        match find_first(entries, entry_is(layer)) {
            Some(entry) => find_first(with_layers(entries, layers), entry_is(layer)) == Some(entry),
            None => find_first(with_layers(entries, layers), entry_is(layer)) == (if layers.contains(layer) {
                Some(LayerEntry { layer, selection: LayerSelection::nothing() })
            } else {
                None
            }),
        },
    decreases layers.len(),
{
    if layers.len() > 0 {
        let rest = layers.drop_last();
        let before = with_layers(entries, rest);
        let last = layers.last();
        lemma_with_layers(entries, rest, layer);
        assert(layers.contains(layer) <==> rest.contains(layer) || layer == last) by {
            if layers.contains(layer) {
                let k = choose|k: int| 0 <= k < layers.len() && layers[k] == layer;
                if k < rest.len() {
                    assert(rest[k] == layer);
                }
            }
            if rest.contains(layer) {
                let k = choose|k: int| 0 <= k < rest.len() && rest[k] == layer;
                assert(layers[k] == layer);
            }
            assert(layers[layers.len() - 1] == last);
        }
        lemma_first_index(before, entry_is(last));
        lemma_first_index(before, entry_is(layer));
        let after = with_layer(before, last);
        if first_index(before, entry_is(last)) is None {
            let entry = LayerEntry { layer: last, selection: LayerSelection::nothing() };
            lemma_find_in_longer(before, entry, layer);
        }
    } else {
        assert(!layers.contains(layer));
    }
}

/// What is found with another entry at the end.
proof fn lemma_find_in_longer(entries: Seq<LayerEntry>, entry: LayerEntry, layer: LayerNodeIdentifier)
    ensures
        find_first(entries.push(entry), entry_is(layer)) == (match find_first(entries, entry_is(layer)) {
            Some(found) => Some(found),
            None => if entry.layer == layer {
                Some(entry)
            } else {
                None
            },
        }),
{
    let pred = entry_is(layer);
    let longer = entries.push(entry);
    lemma_first_index(entries, pred);
    lemma_first_index(longer, pred);
    match first_index(entries, pred) {
        Some(i) => {
            assert(longer[i] == entries[i]);
            lemma_first_index_is(longer, pred, i);
        },
        None => {
            if entry.layer == layer {
                assert(longer[entries.len() as int] == entry);
                lemma_first_index_is(longer, pred, entries.len() as int);
            } else {
                lemma_first_index_none(longer, pred);
            }
        },
    }
}

/// A filter that passes a layer keeps its entry, where each layer has one entry.
proof fn lemma_find_in_filter(entries: Seq<LayerEntry>, layers: Seq<LayerNodeIdentifier>, layer: LayerNodeIdentifier)
    requires
        has_distinct_layers(entries),
    ensures
        find_first(entries.filter(entry_among(layers)), entry_is(layer)) == (if layers.contains(layer) {
            find_first(entries, entry_is(layer))
        } else {
            None
        }),
{
    let among = entry_among(layers);
    let pred = entry_is(layer);
    let kept = entries.filter(among);
    lemma_filter_members(entries, among);
    lemma_first_index(entries, pred);
    lemma_first_index(kept, pred);
    match first_index(kept, pred) {
        Some(i) => {
            assert(kept.contains(kept[i]));
            assert(among(kept[i]));
            assert(entries.contains(kept[i]));
            let k = choose|k: int| 0 <= k < entries.len() && entries[k] == kept[i];
            assert(pred(entries[k]));
            let f = first_index(entries, pred)->0;
            assert(entries[f].layer == entries[k].layer);
            assert(f == k);
        },
        None => {
            if layers.contains(layer) {
                if let Some(f) = first_index(entries, pred) {
                    assert(among(entries[f]));
                    assert(entries.contains(entries[f]));
                    assert(kept.contains(entries[f]));
                    let k = choose|k: int| 0 <= k < kept.len() && kept[k] == entries[f];
                    assert(pred(kept[k]));
                }
            }
        },
    }
}

/// After the layers to edit have been set, exactly those can be edited. What was selected in one that
/// could be edited before stays selected, and nothing is selected in a new one.
pub proof fn set_layers_are_the_targets(state: ShapeSelection, targets: Seq<LayerNodeIdentifier>, layer: LayerNodeIdentifier)
    requires
        state.wf(),
    ensures
        ({
            let after = ShapeSelection { layers: with_layers(state.layers.filter(entry_among(targets)), targets), ..state };
            after.selection_in(layer) == (if targets.contains(layer) {
                match state.selection_in(layer) {
                    Some(selection) => Some(selection),
                    None => Some(LayerSelection::nothing()),
                }
            } else {
                None
            })
        }),
{
    let kept = state.layers.filter(entry_among(targets));
    assert(has_distinct_layers(state.layers));
    lemma_find_in_filter(state.layers, targets, layer);
    lemma_with_layers(kept, targets, layer);
    lemma_first_index(state.layers, entry_is(layer));
}

/// Entries for all layers stay when entries for the layers are added.
proof fn lemma_layers_are_there(entries: Seq<LayerEntry>, layers: Seq<LayerNodeIdentifier>)
    requires
        forall|k: int| 0 <= k < layers.len() ==> first_index(entries, entry_is(#[trigger] layers[k])) is Some,
    ensures
        with_layers(entries, layers) == entries,
    decreases layers.len(),
{
    if layers.len() > 0 {
        let rest = layers.drop_last();
        assert forall|k: int| 0 <= k < rest.len() implies first_index(entries, entry_is(#[trigger] rest[k])) is Some by {
            assert(rest[k] == layers[k]);
        }
        lemma_layers_are_there(entries, rest);
        assert(layers[layers.len() - 1] == layers.last());
    }
}

/// Where all entries pass a filter, it keeps them all.
proof fn lemma_filter_keeps_all(entries: Seq<LayerEntry>, pred: spec_fn(LayerEntry) -> bool)
    requires
        forall|i: int| 0 <= i < entries.len() ==> pred(#[trigger] entries[i]),
    ensures
        entries.filter(pred) == entries,
    decreases entries.len(),
{
    reveal(Seq::filter);
    if entries.len() > 0 {
        let rest = entries.drop_last();
        assert forall|i: int| 0 <= i < rest.len() implies pred(#[trigger] rest[i]) by {
            assert(rest[i] == entries[i]);
        }
        lemma_filter_keeps_all(rest, pred);
        assert(pred(entries[entries.len() - 1]));
        assert(entries == rest.push(entries.last()));
    }
}

/// All entries with those for the layers belong to the layers, if those before do.
proof fn lemma_entries_are_among(entries: Seq<LayerEntry>, layers: Seq<LayerNodeIdentifier>, all: Seq<LayerNodeIdentifier>)
    requires
        forall|i: int| 0 <= i < entries.len() ==> all.contains((#[trigger] entries[i]).layer),
        forall|k: int| 0 <= k < layers.len() ==> all.contains(#[trigger] layers[k]),
    ensures
        forall|i: int| 0 <= i < with_layers(entries, layers).len() ==> all.contains((#[trigger] with_layers(entries, layers)[i]).layer),
    decreases layers.len(),
{
    if layers.len() > 0 {
        let rest = layers.drop_last();
        assert forall|k: int| 0 <= k < rest.len() implies all.contains(#[trigger] rest[k]) by {
            assert(rest[k] == layers[k]);
        }
        lemma_entries_are_among(entries, rest, all);
        assert(all.contains(layers[layers.len() - 1]));
        let before = with_layers(entries, rest);
        let after = with_layers(entries, layers);
        assert forall|i: int| 0 <= i < after.len() implies all.contains((#[trigger] after[i]).layer) by {
            if i < before.len() {
                assert(after[i] == before[i]);
                assert(all.contains(before[i].layer));
            }
        }
    }
}

/// The selection after the layers to edit have been set.
pub open spec fn with_targets(state: ShapeSelection, targets: Seq<LayerNodeIdentifier>) -> ShapeSelection {
    ShapeSelection { layers: with_layers(state.layers.filter(entry_among(targets)), targets), ..state }
}

/// Setting the same layers again changes nothing.
pub proof fn setting_layers_twice_is_setting(state: ShapeSelection, targets: Seq<LayerNodeIdentifier>)
    requires
        state.wf(),
    ensures
        with_targets(with_targets(state, targets), targets) == with_targets(state, targets),
{
    let after = with_targets(state, targets);
    let kept = state.layers.filter(entry_among(targets));
    lemma_filter_members(state.layers, entry_among(targets));
    assert forall|i: int| 0 <= i < kept.len() implies targets.contains((#[trigger] kept[i]).layer) by {
        assert(kept.contains(kept[i]));
        assert(entry_among(targets)(kept[i]));
    }
    assert forall|k: int| 0 <= k < targets.len() implies targets.contains(#[trigger] targets[k]) by {}
    lemma_entries_are_among(kept, targets, targets);
    assert forall|i: int| 0 <= i < after.layers.len() implies entry_among(targets)(#[trigger] after.layers[i]) by {}
    lemma_filter_keeps_all(after.layers, entry_among(targets));
    assert forall|k: int| 0 <= k < targets.len() implies first_index(after.layers, entry_is(#[trigger] targets[k])) is Some by {
        set_layers_are_the_targets(state, targets, targets[k]);
    }
    lemma_layers_are_there(after.layers, targets);
}

/// After everything has been deselected, nothing is selected in any layer.
pub proof fn deselecting_all_leaves_nothing(state: ShapeSelection)
    ensures
        state.change_all(|e: LayerEntry| e.selection.clear_points()).points() == Seq::<ManipulatorPointId>::empty(),
        state.change_all(|e: LayerEntry| e.selection.clear_segments()).segments().len() == 0,
{
    let no_points = changed(state.layers, |e: LayerEntry| e.selection.clear_points());
    lemma_nothing_in_any(no_points, points_of());
    let no_segments = changed(state.layers, |e: LayerEntry| e.selection.clear_segments());
    lemma_nothing_in_any(no_segments, segments_of());
}

proof fn lemma_nothing_in_any<U>(entries: Seq<LayerEntry>, f: spec_fn(LayerEntry) -> Seq<U>)
    requires
        forall|i: int| 0 <= i < entries.len() ==> f(#[trigger] entries[i]).len() == 0,
    ensures
        entries.flat_map(f) == Seq::<U>::empty(),
    decreases entries.len(),
{
    lemma_flat_map_take_ends(entries, f);
    if entries.len() > 0 {
        let rest = entries.drop_last();
        lemma_nothing_in_any(rest, f);
        lemma_flat_map_take_step(entries, f, entries.len() - 1);
        assert(entries.take(entries.len() - 1) == rest);
        assert(f(entries[entries.len() - 1]) == Seq::<U>::empty());
    }
}

} // verus!
