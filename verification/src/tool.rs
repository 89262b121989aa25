//! How a selection is asked for, and what is said about one.
use glam::DVec2;
use vstd::prelude::*;

verus! {

/// What becomes of the selection when more is pointed at.
#[derive(Debug, Copy, Clone, PartialEq, Eq, Structural)]
pub enum SelectionChange {
    /// The old selection is dropped.
    Clear,
    /// The old selection is kept.
    Extend,
    /// What is pointed at is deselected.
    Shrink,
}

/// The region in which things are pointed at, in the viewport.
#[derive(Clone, Copy, Debug)]
pub enum SelectionShape<'a> {
    /// A box between two opposite corners.
    Box((DVec2, DVec2)),
    /// A polygon.
    Lasso(&'a Vec<DVec2>),
}

/// The kind of a selection region.
#[derive(Clone, Copy, Debug, PartialEq, Eq, Structural, Hash)]
pub enum SelectionShapeType {
    Box,
    Lasso,
}

/// Whether the handles at the selected points are in line.
#[derive(Debug, PartialEq, Eq, Structural, Copy, Clone)]
pub enum ManipulatorAngle {
    Colinear,
    Free,
    Mixed,
}

impl Default for ManipulatorAngle {
    fn default() -> (angle: Self)
        ensures
            angle == ManipulatorAngle::Colinear,
    {
        ManipulatorAngle::Colinear
    }
}

/// What kind of point is being dragged.
#[derive(Debug, PartialEq, Eq, Structural, Copy, Clone)]
pub enum PointSelectState {
    HandleWithPair,
    HandleNoPair,
    Anchor,
}

/// Whether a region selects what it touches or only what it encloses.
#[derive(Debug, PartialEq, Eq, Structural, Copy, Clone)]
pub enum SelectionMode {
    Touched,
    Enclosed,
}

/// What a dragged point of a path is, to what it may snap to.
#[derive(Debug, PartialEq, Eq, Structural, Copy, Clone)]
pub enum PathSnapSource {
    AnchorPointWithColinearHandles,
    AnchorPointWithFreeHandles,
    HandlePoint,
}

} // verus!
