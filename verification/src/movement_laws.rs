//! What dragging does on the screen.
use glam::DVec2;
use vstd::prelude::*;

use crate::deletion::message;
use crate::document::{DocumentView, ShapeLayer};
use crate::exact::{lemma_there_and_back, Exact};
use crate::geometry::{composition, inverse_of, transformed_vector};
use crate::ids::{LayerNodeIdentifier, ManipulatorPointId, PointId, SegmentId};
use crate::messages::{Message, VectorModificationType};
use crate::movement::{
    affected_points, anchor_move, follow_anchor, layer_move, point_move, Drag, LayerLengths,
};
use crate::selection::LayerSelection;
use crate::sequences::{lemma_filter_map_take_ends, lemma_filter_map_take_step, lemma_flat_map_take_ends, lemma_flat_map_take_step};
use crate::shape_state::ShapeSelection;
use crate::vector_data::{BezierHandles, Segment, VectorGraph};

verus! {

/// What comes of an element stands in what comes of the whole sequence.
proof fn lemma_flat_map_holds<T, U>(items: Seq<T>, f: spec_fn(T) -> Seq<U>, i: int, k: int, n: int)
    requires
        0 <= i < n <= items.len(),
        0 <= k < f(items[i]).len(),
    ensures
        items.take(n).flat_map(f).contains(f(items[i])[k]),
    decreases n,
{
    lemma_flat_map_take_step(items, f, n - 1);
    let before = items.take(n - 1).flat_map(f);
    let all = items.take(n).flat_map(f);
    assert(all == before + f(items[n - 1]));
    if i == n - 1 {
        assert(all[before.len() + k] == f(items[i])[k]);
    } else {
        lemma_flat_map_holds(items, f, i, k, n - 1);
        let j = choose|j: int| 0 <= j < before.len() && before[j] == f(items[i])[k];
        assert(all[j] == before[j]);
    }
}

/// Each part of what comes of a sequence comes of one of its elements.
pub proof fn lemma_flat_map_comes_from<T, U>(items: Seq<T>, f: spec_fn(T) -> Seq<U>, n: int, j: int) -> (i: int)
    requires
        0 <= n <= items.len(),
        0 <= j < items.take(n).flat_map(f).len(),
    ensures
        0 <= i < n,
        f(items[i]).contains(items.take(n).flat_map(f)[j]),
    decreases n,
{
    if n == 0 {
        lemma_flat_map_take_ends(items, f);
        0
    } else {
        lemma_flat_map_take_step(items, f, n - 1);
        let before = items.take(n - 1).flat_map(f);
        let all = items.take(n).flat_map(f);
        assert(all == before + f(items[n - 1]));
        if j < before.len() {
            assert(all[j] == before[j]);
            lemma_flat_map_comes_from(items, f, n - 1, j)
        } else {
            assert(all[j] == f(items[n - 1])[j - before.len()]);
            n - 1
        }
    }
}

/// Whether a request moves an anchor of a layer by a vector.
pub open spec fn moves_anchor(request: Message, layer: LayerNodeIdentifier, point: PointId, delta: DVec2) -> bool {
    request == (Message::Vector { layer, modification_type: VectorModificationType::ApplyPointDelta { point, delta } })
}

/// The requests of a drag.
pub open spec fn drag_requests(state: ShapeSelection, document: DocumentView, lengths: Option<Seq<LayerLengths>>, drag: Drag) -> Seq<Message> {
    state.layers.flat_map(layer_move(state, document, lengths, drag))
}

/// A drag over the viewport moves each anchor that is selected, on its own or with a segment, and not set aside, by the
/// drag as it is seen from the layer: by what the inverse of the transform from the layer to the viewport makes of it.
pub proof fn a_drag_moves_the_selected_anchors(
    state: ShapeSelection,
    document: DocumentView,
    lengths: Option<Seq<LayerLengths>>,
    drag: Drag,
    vector: ShapeLayer,
    i: int,
    point: PointId,
)
    requires
        0 <= i < state.layers.len(),
        document.vector(state.layers[i].layer) == Some(vector),
        affected_points(vector.graph, state.layers[i].selection).contains(ManipulatorPointId::Anchor(point)),
        !state.is_point_ignored(ManipulatorPointId::Anchor(point)),
    ensures
        exists|k: int|
            {
                &&& 0 <= k < drag_requests(state, document, lengths, drag).len()
                &&& moves_anchor(
                    #[trigger] drag_requests(state, document, lengths, drag)[k],
                    vector.layer,
                    point,
                    transformed_vector(
                        inverse_of(
                            if drag.in_viewport_space {
                                vector.to_viewport
                            } else {
                                composition(document.tilt, vector.to_document)
                            },
                        ),
                        drag.delta,
                    ),
                )
            },
{
    let whole = layer_move(state, document, lengths, drag);
    let entry = state.layers[i];
    let points = affected_points(vector.graph, entry.selection);
    let own = point_move(state, document, vector, entry.selection, lengths, drag);
    let m = choose|m: int| 0 <= m < points.len() && points[m] == ManipulatorPointId::Anchor(point);
    let first = own(points[m])[0];
    lemma_flat_map_take_ends(points, own);
    lemma_flat_map_holds(points, own, m, 0, points.len() as int);
    let sent = whole(entry);
    let j = choose|j: int| 0 <= j < sent.len() && sent[j] == first;
    lemma_flat_map_take_ends(state.layers, whole);
    lemma_flat_map_holds(state.layers, whole, i, j, state.layers.len() as int);
    let requests = drag_requests(state, document, lengths, drag);
    let k = choose|k: int| 0 <= k < requests.len() && requests[k] == first;
    assert(requests[k] == first);
}

/// Moving an anchor sends only one request that moves an anchor: of that anchor, by that vector.
proof fn lemma_one_anchor_moves(layer: LayerNodeIdentifier, graph: VectorGraph, point: PointId, delta: DVec2, selected: Option<LayerSelection>, k: int)
    requires
        0 <= k < anchor_move(layer, graph, point, delta, selected).len(),
        anchor_move(layer, graph, point, delta, selected)[k] is Vector,
        anchor_move(layer, graph, point, delta, selected)[k]->Vector_modification_type is ApplyPointDelta,
    ensures
        moves_anchor(anchor_move(layer, graph, point, delta, selected)[k], layer, point, delta),
{
    let f = follow_anchor(layer, graph, delta, selected);
    let items = graph.end_connected(point);
    let rest = items.filter_map(f);
    let first = seq![message(layer, VectorModificationType::ApplyPointDelta { point, delta })];
    assert(anchor_move(layer, graph, point, delta, selected) == first + rest);
    if k > 0 {
        lemma_filter_map_take_ends(items, f);
        lemma_following_is_no_move(layer, graph, delta, selected, items, items.len() as int);
        assert(rest[k - 1]->Vector_modification_type is SetPrimaryHandle);
    }
}

/// Handles that follow an anchor are placed, not moved.
proof fn lemma_following_is_no_move(
    layer: LayerNodeIdentifier,
    graph: VectorGraph,
    delta: DVec2,
    selected: Option<LayerSelection>,
    items: Seq<SegmentId>,
    n: int,
)
    requires
        0 <= n <= items.len(),
    ensures
        forall|k: int|
            0 <= k < items.take(n).filter_map(follow_anchor(layer, graph, delta, selected)).len() ==> {
                let request = #[trigger] items.take(n).filter_map(follow_anchor(layer, graph, delta, selected))[k];
                request is Vector && request->Vector_modification_type is SetPrimaryHandle
            },
    decreases n,
{
    let f = follow_anchor(layer, graph, delta, selected);
    if n == 0 {
        lemma_filter_map_take_ends(items, f);
    } else {
        lemma_following_is_no_move(layer, graph, delta, selected, items, n - 1);
        lemma_filter_map_take_step(items, f, n - 1);
    }
}

/// On the screen, a drag over the viewport moves anchors by itself: the transform from the layer to the viewport, which
/// can be taken back, takes the vector that each anchor is moved by to the drag.
pub proof fn a_drag_moves_anchors_under_the_mouse(
    exact: Exact,
    state: ShapeSelection,
    document: DocumentView,
    lengths: Option<Seq<LayerLengths>>,
    drag: Drag,
    vector: ShapeLayer,
    i: int,
    point: PointId,
)
    requires
        exact.wf(),
        drag.in_viewport_space,
        0 <= i < state.layers.len(),
        document.vector(state.layers[i].layer) == Some(vector),
        (exact.frame)(vector.to_viewport).determinant() != 0 as real,
        affected_points(vector.graph, state.layers[i].selection).contains(ManipulatorPointId::Anchor(point)),
        !state.is_point_ignored(ManipulatorPointId::Anchor(point)),
    ensures
        exists|k: int, delta: DVec2|
            {
                &&& 0 <= k < drag_requests(state, document, lengths, drag).len()
                &&& #[trigger] moves_anchor(drag_requests(state, document, lengths, drag)[k], vector.layer, point, delta)
                &&& exact.of(transformed_vector(vector.to_viewport, delta)) == exact.of(drag.delta)
            },
{
    a_drag_moves_the_selected_anchors(state, document, lengths, drag, vector, i, point);
    lemma_there_and_back(exact, vector.to_viewport, drag.delta);
    let requests = drag_requests(state, document, lengths, drag);
    let delta = transformed_vector(inverse_of(vector.to_viewport), drag.delta);
    let k = choose|k: int| 0 <= k < requests.len() && moves_anchor(#[trigger] requests[k], vector.layer, point, delta);
    assert(moves_anchor(requests[k], vector.layer, point, delta));
}

/// No drag over the viewport moves an anchor by anything else.
pub proof fn a_drag_moves_no_anchor_otherwise(
    state: ShapeSelection,
    document: DocumentView,
    lengths: Option<Seq<LayerLengths>>,
    drag: Drag,
    k: int,
)
    requires
        drag.in_viewport_space,
        0 <= k < drag_requests(state, document, lengths, drag).len(),
        drag_requests(state, document, lengths, drag)[k] is Vector,
        drag_requests(state, document, lengths, drag)[k]->Vector_modification_type is ApplyPointDelta,
    ensures
        exists|i: int, vector: ShapeLayer, point: PointId|
            {
                &&& 0 <= i < state.layers.len()
                &&& document.vector((#[trigger] state.layers[i]).layer) == Some(vector)
                &&& affected_points(vector.graph, state.layers[i].selection).contains(ManipulatorPointId::Anchor(point))
                &&& #[trigger] moves_anchor(
                    drag_requests(state, document, lengths, drag)[k],
                    vector.layer,
                    point,
                    transformed_vector(inverse_of(vector.to_viewport), drag.delta),
                )
            },
{
    let whole = layer_move(state, document, lengths, drag);
    lemma_flat_map_take_ends(state.layers, whole);
    let request = drag_requests(state, document, lengths, drag)[k];
    let i = lemma_flat_map_comes_from(state.layers, whole, state.layers.len() as int, k);
    let entry = state.layers[i];
    let vector = document.vector(entry.layer)->0;
    let points = affected_points(vector.graph, entry.selection);
    let own = point_move(state, document, vector, entry.selection, lengths, drag);
    let sent = whole(entry);
    let j = choose|j: int| 0 <= j < sent.len() && sent[j] == request;
    lemma_flat_map_take_ends(points, own);
    let m = lemma_flat_map_comes_from(points, own, points.len() as int, j);
    let parts = own(points[m]);
    let n = choose|n: int| 0 <= n < parts.len() && parts[n] == request;
    match points[m] {
        ManipulatorPointId::Anchor(point) => {
            let delta = transformed_vector(inverse_of(vector.to_viewport), drag.delta);
            lemma_one_anchor_moves(vector.layer, vector.graph, point, delta, Some(entry.selection), n);
            assert(points.contains(ManipulatorPointId::Anchor(point)));
            assert(document.vector(state.layers[i].layer) == Some(vector));
            assert(moves_anchor(request, vector.layer, point, delta));
        },
        _ => {
            assert(request->Vector_modification_type !is ApplyPointDelta);
        },
    }
}

/// The handle of a quadratic segment, which hangs on its start, follows the anchor at its end: it is moved by as much.
pub proof fn a_quadratic_handle_follows_the_end(
    exact: Exact,
    layer: LayerNodeIdentifier,
    graph: VectorGraph,
    delta: DVec2,
    id: SegmentId,
    segment: Segment,
    handle: DVec2,
)
    requires
        exact.wf(),
        graph.segment(id) == Some(segment),
        segment.handles == (BezierHandles::Quadratic { handle }),
    ensures
        follow_anchor(layer, graph, delta, None)(id) matches Some(
            Message::Vector { layer: changed, modification_type: VectorModificationType::SetPrimaryHandle { segment: moved, relative_position } },
        ) && changed == layer && moved == id && exact.of(graph.points[segment.start as int].position).plus(exact.of(relative_position))
            == exact.of(handle).plus(exact.of(delta)),
{
}

} // verus!
