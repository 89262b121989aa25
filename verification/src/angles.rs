//! The angles between the handles at an anchor.
use glam::DVec2;
use vstd::prelude::*;

use crate::geometry::{angle, angles_between, difference, minus, normalize_or_zero, unit_or_zero};
use crate::document::{Document, DocumentView, VectorLayer};
use crate::ids::{HandleId, LayerNodeIdentifier, ManipulatorPointId};
use crate::sequences::{find_first, lemma_first_index_is, lemma_first_index_none};
use crate::vector_data::{VectorData, VectorGraph};

verus! {

/// A handle whose angle is measured from another one, of the same layer.
#[derive(Clone, Copy, Debug)]
pub struct AngleKey {
    pub layer: LayerNodeIdentifier,
    pub point: ManipulatorPointId,
    pub handle: HandleId,
}

/// The angle from one handle to another.
#[derive(Clone, Copy, Debug)]
pub struct HandleAngle {
    pub key: AngleKey,
    /// The angle, in both coordinates.
    pub angle: DVec2,
}

pub open spec fn angle_is(key: AngleKey) -> spec_fn(HandleAngle) -> bool {
    |entry: HandleAngle| entry.key == key
}

/// The measured angle, if there is one.
pub open spec fn angle_for(angles: Seq<HandleAngle>, key: AngleKey) -> Option<DVec2> {
    match find_first(angles, angle_is(key)) {
        Some(entry) => Some(entry.angle),
        None => None,
    }
}

/// Which angles were measured.
pub open spec fn angle_keys(angles: Seq<HandleAngle>) -> Seq<AngleKey> {
    angles.map_values(|entry: HandleAngle| entry.key)
}

pub open spec fn angle_key(layer: LayerNodeIdentifier, point: ManipulatorPointId) -> spec_fn(HandleId) -> AngleKey {
    |handle: HandleId| AngleKey { layer, point, handle }
}

/// The direction of an anchor or handle from the anchor next to it.
pub open spec fn direction_of(graph: VectorGraph, point: ManipulatorPointId, anchor: DVec2) -> Option<DVec2> {
    match graph.position(point) {
        Some(position) => Some(unit_or_zero(difference(position, anchor))),
        None => None,
    }
}

/// The position of the anchor next to a handle.
pub open spec fn anchor_position(graph: VectorGraph, point: ManipulatorPointId) -> Option<DVec2> {
    match graph.anchor(point) {
        Some(anchor) => graph.position_from_id(anchor),
        None => None,
    }
}

/// Whether the angles from a handle to the others can be compared: there is nothing to compare, or
/// all have a position.
pub open spec fn is_comparable(graph: VectorGraph, point: ManipulatorPointId, handles: Seq<HandleId>) -> bool {
    handles.len() < 2 || {
        &&& anchor_position(graph, point) is Some
        &&& graph.position(point) is Some
        &&& forall|i: int| 0 <= i < handles.len() ==> graph.position((#[trigger] handles[i]).to_manipulator_point()) is Some
    }
}

/// The angles that are compared from a handle to others: none if there are fewer than two.
pub open spec fn compared(layer: LayerNodeIdentifier, point: ManipulatorPointId, handles: Seq<HandleId>) -> Seq<AngleKey> {
    if handles.len() < 2 {
        Seq::empty()
    } else {
        handles.map_values(angle_key(layer, point))
    }
}

/// Whether an angle is one from the direction of the handle that it is measured from to that of the other, in the
/// shape of its layer.
pub open spec fn is_measured(graph: VectorGraph, entry: HandleAngle) -> bool {
    &&& anchor_position(graph, entry.key.point) matches Some(anchor)
    &&& direction_of(graph, entry.key.point, anchor) matches Some(from)
    &&& direction_of(graph, entry.key.handle.to_manipulator_point(), anchor) matches Some(to)
    &&& angles_between(from, to).contains(entry.angle)
}

/// Whether each angle is measured in the shape of its layer.
pub open spec fn are_measured(document: DocumentView, angles: Seq<HandleAngle>) -> bool {
    forall|i: int|
        0 <= i < angles.len() ==> (document.vector((#[trigger] angles[i]).key.layer) matches Some(vector) && is_measured(
            vector.graph,
            angles[i],
        ))
}

/// The measured angle, if there is one.
pub(crate) fn lookup_angle(angles: &Vec<HandleAngle>, key: AngleKey) -> (angle: Option<DVec2>)
    ensures
        angle == angle_for(angles@, key),
{
    let mut i: usize = 0;
    while i < angles.len()
        invariant
            i <= angles.len(),
            forall|j: int| 0 <= j < i ==> !angle_is(key)(#[trigger] angles@[j]),
        decreases angles.len() - i,
    {
        let found: AngleKey = angles[i].key;
        if found.layer == key.layer && found.point == key.point && found.handle == key.handle {
            proof {
                lemma_first_index_is(angles@, angle_is(key), i as int);
            }
            return Some(angles[i].angle);
        }
        i += 1;
    }
    proof {
        lemma_first_index_none(angles@, angle_is(key));
    }
    None
}

/// The position of the anchor next to a handle.
pub(crate) fn get_anchor_position(vector_data: &VectorData, point: ManipulatorPointId) -> (position: Option<DVec2>)
    requires
        vector_data@.wf(),
    ensures
        position == anchor_position(vector_data@, point),
{
    match point.get_anchor(vector_data) {
        Some(anchor) => vector_data.position_from_id(anchor),
        None => None,
    }
}

/// Measures the angles from a handle to the others, if there is more than one.
pub(crate) fn measure(document: &Document, vector: &VectorLayer, layer: LayerNodeIdentifier, point: ManipulatorPointId, handles: &Vec<HandleId>, angles: &mut Vec<HandleAngle>)
    requires
        vector.vector_data@.wf(),
        document@.vector(layer) == Some(vector@),
        is_comparable(vector.vector_data@, point, handles@),
        are_measured(document@, old(angles)@),
    ensures
        angle_keys(final(angles)@) == angle_keys(old(angles)@) + compared(layer, point, handles@),
        are_measured(document@, final(angles)@),
{
    let vector_data: &VectorData = &vector.vector_data;
    if handles.len() < 2 {
        return;
    }
    let ghost before = angle_keys(angles@);
    let ghost keys = handles@.map_values(angle_key(layer, point));
    let anchor: DVec2 = get_anchor_position(vector_data, point).unwrap();
    let position: DVec2 = point.get_position(vector_data).unwrap();
    let direction: DVec2 = normalize_or_zero(minus(position, anchor));
    let mut i: usize = 0;
    while i < handles.len()
        invariant
            i <= handles.len(),
            handles.len() >= 2,
            vector_data@.wf(),
            is_comparable(vector_data@, point, handles@),
            vector_data@ == vector@.graph,
            document@.vector(layer) == Some(vector@),
            anchor_position(vector_data@, point) == Some(anchor),
            direction_of(vector_data@, point, anchor) == Some(direction),
            are_measured(document@, angles@),
            keys == handles@.map_values(angle_key(layer, point)),
            angle_keys(angles@) == before + keys.take(i as int),
        decreases handles.len() - i,
    {
        let ghost seen = angle_keys(angles@);
        let handle: HandleId = handles[i];
        proof {
            assert(keys.take(i + 1) == keys.take(i as int).push(keys[i as int]));
            assert(vector_data@.position(handles@[i as int].to_manipulator_point()) is Some);
        }
        let other: DVec2 = handle.to_manipulator_point().get_position(vector_data).unwrap();
        let turned: DVec2 = angle(direction, normalize_or_zero(minus(other, anchor)));
        let key: AngleKey = AngleKey { layer, point, handle };
        let entry: HandleAngle = HandleAngle { key, angle: turned };
        let ghost measured = angles@;
        angles.push(entry);
        proof {
            assert(is_measured(vector@.graph, entry));
            assert forall|k: int| 0 <= k < angles@.len() implies (document@.vector((#[trigger] angles@[k]).key.layer) matches Some(own)
                && is_measured(own.graph, angles@[k])) by {
                if k < measured.len() {
                    assert(angles@[k] == measured[k]);
                }
            }
            assert(angle_keys(angles@) == seen.push(key));
        }
        i += 1;
    }
    proof {
        assert(keys.take(i as int) == keys);
    }
}

} // verus!
