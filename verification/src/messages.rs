//! What an edit asks the document to do.
use glam::DVec2;
use vstd::prelude::*;

use crate::ids::{HandleId, HandleType, LayerNodeIdentifier, PointId, SegmentId};

verus! {

/// One change to the shape of a layer.
#[allow(inconsistent_fields)]
#[derive(Clone, Copy, Debug)]
pub enum VectorModificationType {
    InsertSegment { id: SegmentId, points: (PointId, PointId), handles: (Option<DVec2>, Option<DVec2>) },
    InsertPoint { id: PointId, position: DVec2 },
    RemoveSegment { id: SegmentId },
    RemovePoint { id: PointId },
    SetG1Continuous { handles: (HandleId, HandleId), enabled: bool },
    SetHandles { segment: SegmentId, handles: (Option<DVec2>, Option<DVec2>) },
    SetPrimaryHandle { segment: SegmentId, relative_position: DVec2 },
    SetEndHandle { segment: SegmentId, relative_position: DVec2 },
    SetStartPoint { segment: SegmentId, id: PointId },
    SetEndPoint { segment: SegmentId, id: PointId },
    ApplyPointDelta { point: PointId, delta: DVec2 },
    ApplyPrimaryDelta { segment: SegmentId, delta: DVec2 },
    ApplyEndDelta { segment: SegmentId, delta: DVec2 },
}

/// A request to the document.
#[derive(Clone, Copy, Debug)]
pub enum Message {
    /// Change the shape of the layer.
    Vector { layer: LayerNodeIdentifier, modification_type: VectorModificationType },
    /// Join the shapes of the two layers in the first one.
    MergeLayers { first_layer: LayerNodeIdentifier, second_layer: LayerNodeIdentifier },
}

impl HandleId {
    pub open spec fn spec_set_relative_position(self, relative_position: DVec2) -> VectorModificationType {
        match self.ty {
            HandleType::Primary => VectorModificationType::SetPrimaryHandle {
                segment: self.segment,
                relative_position,
            },
            HandleType::End => VectorModificationType::SetEndHandle {
                segment: self.segment,
                relative_position,
            },
        }
    }

    /// The change that places this handle relative to its anchor.
    #[verifier::when_used_as_spec(spec_set_relative_position)]
    pub fn set_relative_position(self, relative_position: DVec2) -> (modification: VectorModificationType)
        ensures
            modification == self.spec_set_relative_position(relative_position),
    {
        match self.ty {
            HandleType::Primary => VectorModificationType::SetPrimaryHandle {
                segment: self.segment,
                relative_position,
            },
            HandleType::End => VectorModificationType::SetEndHandle {
                segment: self.segment,
                relative_position,
            },
        }
    }
}

/// The request to keep two handles in line, or to stop doing so.
pub open spec fn g1_message(layer: LayerNodeIdentifier, handles: (HandleId, HandleId), enabled: bool) -> Message {
    Message::Vector {
        layer,
        modification_type: VectorModificationType::SetG1Continuous { handles, enabled },
    }
}

/// The request to place a handle relative to its anchor.
pub open spec fn handle_message(layer: LayerNodeIdentifier, handle: HandleId, relative_position: DVec2) -> Message {
    Message::Vector { layer, modification_type: handle.set_relative_position(relative_position) }
}

} // verus!
