//! Paths at a distance from the paths of a shape.
use glam::{DAffine2, DVec2};
use vstd::prelude::*;

use crate::exact::{lemma_there_and_back, Exact};
use crate::geometry::{from_translation, identity, inverse, inverse_of, negate, negation, splat};
use crate::style::{PathStyle, StrokeJoin};
use crate::subpath::{Subpath, SubpathView};

verus! {

/// The shape of an offset path at corners, with the limit of pointed ones.
#[derive(Clone, Copy, Debug)]
pub enum OffsetJoin {
    Miter(DVec2),
    Bevel,
    Round,
}

/// The shape of an offset path at corners.
pub open spec fn join_of(join: StrokeJoin, miter_limit: DVec2) -> OffsetJoin {
    match join {
        StrokeJoin::Miter => OffsetJoin::Miter(miter_limit),
        StrokeJoin::Bevel => OffsetJoin::Bevel,
        StrokeJoin::Round => OffsetJoin::Round,
    }
}

/// What is offset: the paths under the transform of their shape, by how much, and how at corners.
#[derive(Debug)]
pub struct OffsetTask {
    pub subpaths: Vec<Subpath>,
    pub distance: DVec2,
    pub join: OffsetJoin,
}

/// What paths hold.
pub open spec fn views_of(subpaths: Seq<Subpath>) -> Seq<SubpathView> {
    subpaths.map_values(|subpath: Subpath| subpath@)
}

/// Paths under a transform.
pub open spec fn all_placed(subpaths: Seq<SubpathView>, transform: DAffine2) -> Seq<SubpathView> {
    subpaths.map_values(|subpath: SubpathView| subpath.placed(transform))
}

/// The paths under a transform.
fn place_all(subpaths: &Vec<Subpath>, transform: DAffine2) -> (result: Vec<Subpath>)
    ensures
        views_of(result@) == all_placed(views_of(subpaths@), transform),
{
    let ghost all = all_placed(views_of(subpaths@), transform);
    let mut result: Vec<Subpath> = Vec::new();
    let mut i: usize = 0;
    while i < subpaths.len()
        invariant
            i <= subpaths.len(),
            all == all_placed(views_of(subpaths@), transform),
            views_of(result@) == all.take(i as int),
        decreases subpaths.len() - i,
    {
        let ghost before = result@;
        result.push(subpaths[i].apply_transform(transform));
        i += 1;
        proof {
            assert(views_of(result@) == views_of(before).push(result@.last()@));
            assert(all.take(i as int) == all.take(i - 1).push(all[i - 1]));
        }
    }
    proof {
        assert(all.take(i as int) == all);
    }
    result
}

/// What is to be offset for a shape. Its stroke loses its transform.
pub fn offset_path(subpaths: &Vec<Subpath>, transform: DAffine2, style: &mut PathStyle, distance: DVec2, join: StrokeJoin, miter_limit: DVec2) -> (task: OffsetTask)
    ensures
        views_of(task.subpaths@) == all_placed(views_of(subpaths@), transform),
        task.distance == negation(distance),
        task.join == join_of(join, miter_limit),
        final(style)@ == old(style)@.with_stroke_transform(identity()),
{
    style.set_stroke_transform(from_translation(splat(0)));
    let join_kind: OffsetJoin = match join {
        StrokeJoin::Miter => OffsetJoin::Miter(miter_limit),
        StrokeJoin::Bevel => OffsetJoin::Bevel,
        StrokeJoin::Round => OffsetJoin::Round,
    };
    OffsetTask { subpaths: place_all(subpaths, transform), distance: negate(distance), join: join_kind }
}

/// The subpaths, placed by a transform, as they are without it.
pub open spec fn taken_back(subpaths: Seq<SubpathView>, transform: DAffine2) -> Seq<SubpathView> {
    all_placed(subpaths, inverse_of(transform))
}

/// What is offset is placed by the transform and taken back out of it: an anchor that the offset leaves alone comes back to
/// where it was, and so do its handles.
pub proof fn offsets_are_taken_back(exact: Exact, subpaths: Seq<SubpathView>, transform: DAffine2, i: int, j: int)
    requires
        exact.wf(),
        (exact.frame)(transform).determinant() != 0 as real,
        0 <= i < subpaths.len(),
        0 <= j < subpaths[i].groups.len(),
    ensures
        ({
            let found = taken_back(all_placed(subpaths, transform), transform);
            let (old_group, group) = (subpaths[i].groups[j], found[i].groups[j]);
            &&& found.len() == subpaths.len()
            &&& found[i].closed == subpaths[i].closed
            &&& found[i].groups.len() == subpaths[i].groups.len()
            &&& group.id == old_group.id
            &&& exact.of(group.anchor) == exact.of(old_group.anchor)
            &&& old_group.in_handle matches Some(handle) ==> (group.in_handle matches Some(back) && exact.of(back) == exact.of(handle))
            &&& old_group.out_handle matches Some(handle) ==> (group.out_handle matches Some(back) && exact.of(back) == exact.of(handle))
        }),
{
    let group = subpaths[i].groups[j];
    lemma_there_and_back(exact, transform, group.anchor);
    if let Some(handle) = group.in_handle {
        lemma_there_and_back(exact, transform, handle);
    }
    if let Some(handle) = group.out_handle {
        lemma_there_and_back(exact, transform, handle);
    }
}

/// The offset paths as they belong to the shape, whose transform is taken back.
pub fn place_offsets(subpaths: &Vec<Subpath>, transform: DAffine2) -> (result: Vec<Subpath>)
    ensures
        views_of(result@) == taken_back(views_of(subpaths@), transform),
{
    place_all(subpaths, inverse(transform))
}

} // verus!
