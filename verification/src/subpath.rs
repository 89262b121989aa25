//! A path given by its anchors, each with the handles before and after it.
use glam::{DAffine2, DVec2};
use vstd::prelude::*;

use crate::geometry::{transform_point, transformed_point};
use crate::ids::PointId;

verus! {

/// An anchor with the handle before it and the one after it.
#[derive(Clone, Copy, Debug)]
pub struct ManipulatorGroup {
    pub anchor: DVec2,
    pub in_handle: Option<DVec2>,
    pub out_handle: Option<DVec2>,
    pub id: PointId,
}

/// A path along anchors.
#[derive(Debug)]
pub struct Subpath {
    pub groups: Vec<ManipulatorGroup>,
    pub closed: bool,
}

/// A path along anchors, as mathematical values.
pub struct SubpathView {
    pub groups: Seq<ManipulatorGroup>,
    pub closed: bool,
}

impl View for Subpath {
    type V = SubpathView;

    open spec fn view(&self) -> SubpathView {
        SubpathView { groups: self.groups@, closed: self.closed }
    }
}

/// A position under a transform, if there is one.
pub open spec fn place(transform: DAffine2, position: Option<DVec2>) -> Option<DVec2> {
    match position {
        Some(p) => Some(transformed_point(transform, p)),
        None => None,
    }
}

/// An anchor and its handles under a transform.
pub open spec fn place_group(transform: DAffine2) -> spec_fn(ManipulatorGroup) -> ManipulatorGroup {
    |group: ManipulatorGroup|
        ManipulatorGroup {
            anchor: transformed_point(transform, group.anchor),
            in_handle: place(transform, group.in_handle),
            out_handle: place(transform, group.out_handle),
            id: group.id,
        }
}

impl SubpathView {
    /// The path under a transform.
    pub open spec fn placed(self, transform: DAffine2) -> SubpathView {
        SubpathView { groups: self.groups.map_values(place_group(transform)), ..self }
    }

    /// The index of the anchor before the one with the index; an open path ends at its first anchor.
    pub open spec fn previous(self, i: int) -> int {
        if i > 0 {
            i - 1
        } else if self.closed {
            self.groups.len() - 1
        } else {
            i
        }
    }

    /// The index of the anchor after the one with the index; an open path ends at its last anchor.
    pub open spec fn next(self, i: int) -> int {
        if i < self.groups.len() - 1 {
            i + 1
        } else if self.closed {
            0
        } else {
            i
        }
    }

    /// Whether the anchor is an end of an open path.
    pub open spec fn is_end(self, i: int) -> bool {
        !self.closed && (i == 0 || i == self.groups.len() - 1)
    }
}

/// A position under a transform, if there is one.
fn compute_place(transform: DAffine2, position: Option<DVec2>) -> (result: Option<DVec2>)
    ensures
        result == place(transform, position),
{
    match position {
        Some(p) => Some(transform_point(transform, p)),
        None => None,
    }
}

impl Subpath {
    /// The path under a transform.
    pub fn apply_transform(&self, transform: DAffine2) -> (result: Subpath)
        ensures
            result@ == self@.placed(transform),
    {
        let mut groups: Vec<ManipulatorGroup> = Vec::new();
        let ghost all = self@.placed(transform).groups;
        let mut i: usize = 0;
        while i < self.groups.len()
            invariant
                i <= self.groups.len(),
                all == self@.placed(transform).groups,
                groups@ == all.take(i as int),
            decreases self.groups.len() - i,
        {
            proof {
                assert(all.take(i + 1) == all.take(i as int).push(all[i as int]));
            }
            let group: ManipulatorGroup = self.groups[i];
            groups.push(
                ManipulatorGroup {
                    anchor: transform_point(transform, group.anchor),
                    in_handle: compute_place(transform, group.in_handle),
                    out_handle: compute_place(transform, group.out_handle),
                    id: group.id,
                },
            );
            i += 1;
        }
        proof {
            assert(all.take(i as int) == all);
        }
        Subpath { groups, closed: self.closed }
    }

    /// The index of the anchor before the one with the index.
    pub fn previous(&self, i: usize) -> (index: usize)
        requires
            i < self@.groups.len(),
        ensures
            index == self@.previous(i as int),
            index < self@.groups.len(),
    {
        if i > 0 {
            i - 1
        } else if self.closed {
            self.groups.len() - 1
        } else {
            i
        }
    }

    /// The index of the anchor after the one with the index.
    pub fn next(&self, i: usize) -> (index: usize)
        requires
            i < self@.groups.len(),
        ensures
            index == self@.next(i as int),
            index < self@.groups.len(),
    {
        if i < self.groups.len() - 1 {
            i + 1
        } else if self.closed {
            0
        } else {
            i
        }
    }

    /// Whether the anchor is an end of an open path.
    pub fn is_end(&self, i: usize) -> (result: bool)
        requires
            i < self@.groups.len(),
        ensures
            result == self@.is_end(i as int),
    {
        !self.closed && (i == 0 || i == self.groups.len() - 1)
    }
}

} // verus!
