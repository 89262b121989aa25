//! Identifiers of the parts of a vector shape: its points, its segments and the handles that
//! bend the segments.
use vstd::prelude::*;

verus! {

/// A value that names something and that can be told apart from another value of its type.
pub trait Identifier: Copy {
    /// Whether the two identifiers name the same thing.
    fn same(self, other: Self) -> (result: bool)
        ensures
            result == (self == other),
    ;
}

/// Names an anchor point of a vector shape.
#[derive(Clone, Copy, Debug, PartialEq, Eq, Structural, Hash, PartialOrd, Ord)]
pub struct PointId(pub u64);

/// Names a segment of a vector shape.
#[derive(Clone, Copy, Debug, PartialEq, Eq, Structural, Hash, PartialOrd, Ord)]
pub struct SegmentId(pub u64);

/// Names the stroke that a segment belongs to.
#[derive(Clone, Copy, Debug, PartialEq, Eq, Structural, Hash, PartialOrd, Ord)]
pub struct StrokeId(pub u64);

/// Names a filled region of a vector shape.
#[derive(Clone, Copy, Debug, PartialEq, Eq, Structural, Hash, PartialOrd, Ord)]
pub struct RegionId(pub u64);

/// Names the fill of a region.
#[derive(Clone, Copy, Debug, PartialEq, Eq, Structural, Hash, PartialOrd, Ord)]
pub struct FillId(pub u64);

/// Names a layer of the document.
#[derive(Clone, Copy, Debug, PartialEq, Eq, Structural, Hash, PartialOrd, Ord)]
pub struct LayerNodeIdentifier(pub u64);

/// The end of a segment that a handle belongs to.
#[derive(Clone, Copy, Debug, PartialEq, Eq, Structural, Hash)]
pub enum HandleType {
    /// The handle next to the start of the segment. For a quadratic segment it is its only one.
    Primary,
    /// The handle next to the end of the segment.
    End,
}

/// Names a handle by its segment and the end of the segment.
#[derive(Clone, Copy, Debug, PartialEq, Eq, Structural, Hash)]
pub struct HandleId {
    pub ty: HandleType,
    pub segment: SegmentId,
}

/// Names something that can be dragged: an anchor or a handle.
#[derive(Clone, Copy, Debug, PartialEq, Eq, Structural, Hash)]
pub enum ManipulatorPointId {
    Anchor(PointId),
    PrimaryHandle(SegmentId),
    EndHandle(SegmentId),
}

impl Identifier for PointId {
    fn same(self, other: Self) -> (result: bool) {
        self.0 == other.0
    }
}

impl Identifier for SegmentId {
    fn same(self, other: Self) -> (result: bool) {
        self.0 == other.0
    }
}

impl Identifier for LayerNodeIdentifier {
    fn same(self, other: Self) -> (result: bool) {
        self.0 == other.0
    }
}

impl Identifier for HandleId {
    fn same(self, other: Self) -> (result: bool) {
        self == other
    }
}

impl Identifier for ManipulatorPointId {
    fn same(self, other: Self) -> (result: bool) {
        self == other
    }
}

impl HandleId {
    pub open spec fn spec_primary(segment: SegmentId) -> HandleId {
        HandleId { ty: HandleType::Primary, segment }
    }

    pub open spec fn spec_end(segment: SegmentId) -> HandleId {
        HandleId { ty: HandleType::End, segment }
    }

    /// The handle next to the start of the segment.
    #[verifier::when_used_as_spec(spec_primary)]
    pub fn primary(segment: SegmentId) -> (handle: HandleId)
        ensures
            handle == HandleId::spec_primary(segment),
    {
        HandleId { ty: HandleType::Primary, segment }
    }

    /// The handle next to the end of the segment.
    #[verifier::when_used_as_spec(spec_end)]
    pub fn end(segment: SegmentId) -> (handle: HandleId)
        ensures
            handle == HandleId::spec_end(segment),
    {
        HandleId { ty: HandleType::End, segment }
    }

    pub open spec fn spec_opposite(self) -> HandleId {
        HandleId {
            ty: match self.ty {
                HandleType::Primary => HandleType::End,
                HandleType::End => HandleType::Primary,
            },
            segment: self.segment,
        }
    }

    /// The handle at the other end of the same segment.
    #[verifier::when_used_as_spec(spec_opposite)]
    pub fn opposite(self) -> (handle: HandleId)
        ensures
            handle == self.spec_opposite(),
    {
        match self.ty {
            HandleType::Primary => HandleId::end(self.segment),
            HandleType::End => HandleId::primary(self.segment),
        }
    }

    pub open spec fn spec_to_manipulator_point(self) -> ManipulatorPointId {
        match self.ty {
            HandleType::Primary => ManipulatorPointId::PrimaryHandle(self.segment),
            HandleType::End => ManipulatorPointId::EndHandle(self.segment),
        }
    }

    /// The handle as something that can be dragged.
    #[verifier::when_used_as_spec(spec_to_manipulator_point)]
    pub fn to_manipulator_point(self) -> (point: ManipulatorPointId)
        ensures
            point == self.spec_to_manipulator_point(),
    {
        match self.ty {
            HandleType::Primary => ManipulatorPointId::PrimaryHandle(self.segment),
            HandleType::End => ManipulatorPointId::EndHandle(self.segment),
        }
    }
}

impl ManipulatorPointId {
    pub open spec fn spec_as_handle(self) -> Option<HandleId> {
        match self {
            ManipulatorPointId::Anchor(_) => None,
            ManipulatorPointId::PrimaryHandle(segment) => Some(HandleId::spec_primary(segment)),
            ManipulatorPointId::EndHandle(segment) => Some(HandleId::spec_end(segment)),
        }
    }

    /// The handle that this is, unless it is an anchor.
    #[verifier::when_used_as_spec(spec_as_handle)]
    pub fn as_handle(self) -> (handle: Option<HandleId>)
        ensures
            handle == self.spec_as_handle(),
    {
        match self {
            ManipulatorPointId::Anchor(_) => None,
            ManipulatorPointId::PrimaryHandle(segment) => Some(HandleId::primary(segment)),
            ManipulatorPointId::EndHandle(segment) => Some(HandleId::end(segment)),
        }
    }

    pub open spec fn spec_as_anchor(self) -> Option<PointId> {
        match self {
            ManipulatorPointId::Anchor(point) => Some(point),
            _ => None,
        }
    }

    /// The anchor that this is, unless it is a handle.
    #[verifier::when_used_as_spec(spec_as_anchor)]
    pub fn as_anchor(self) -> (anchor: Option<PointId>)
        ensures
            anchor == self.spec_as_anchor(),
    {
        match self {
            ManipulatorPointId::Anchor(point) => Some(point),
            _ => None,
        }
    }
}

/// The opposite of the opposite handle is the handle itself.
pub proof fn opposite_is_an_involution(handle: HandleId)
    ensures
        handle.opposite().opposite() == handle,
        handle.opposite() != handle,
{
}

/// A handle that is read as something to drag is still that handle, and is no anchor.
pub proof fn handle_survives_as_manipulator_point(handle: HandleId)
    ensures
        handle.to_manipulator_point().as_handle() == Some(handle),
        handle.to_manipulator_point().as_anchor() == None::<PointId>,
{
}

} // verus!
