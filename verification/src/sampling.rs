//! Points sampled along paths and within them.
use glam::{DAffine2, DVec2};
use vstd::prelude::*;

use crate::fresh_ids::{continues, FreshIds};
use crate::geometry::{from_translation, identity, number, number_of, splat};
use crate::ids::PointId;
use crate::paths::{
    affine_inverse, apply_affine, apply_inverse, box_around_path, box_of, map_path, path_segments, segments, transforming, PathElement,
};
use crate::sequences::{append_copies, lemma_filter_map_take_ends, lemma_filter_map_take_step};
use crate::style::PathStyle;
use crate::vector_data::AnchorPoint;

verus! {

/// What the distances of sampled points are given by.
#[derive(Clone, Copy, Debug, PartialEq, Eq, Structural)]
pub enum PointSpacingType {
    /// The distance from one to the next.
    Separation,
    /// How many there are.
    Quantity,
}

/// What is sampled on one of the paths of a shape: the path under the shape's transform, the lengths of its
/// segments, and the distance or number of the points.
#[derive(Debug)]
pub struct SampleTask {
    pub path: Vec<PathElement>,
    pub segment_lengths: Vec<DVec2>,
    pub amount: DVec2,
}

/// Whether a path begins by moving the pen, or is empty.
pub open spec fn begins(path: Seq<PathElement>) -> bool {
    path.len() > 0 ==> path[0] is MoveTo
}

/// How many segments a path has under the transform.
pub open spec fn segment_count(path: Seq<PathElement>, transform: DAffine2) -> nat {
    path_segments(map_path(path, transforming(transform))).len()
}

/// How many segments the first paths have together.
pub open spec fn segments_before(paths: Seq<Vec<PathElement>>, transform: DAffine2, n: nat) -> nat
    decreases n,
{
    if n == 0 {
        0
    } else {
        segments_before(paths, transform, (n - 1) as nat) + segment_count(paths[n - 1]@, transform)
    }
}

/// The distance or number of the sampled points.
pub open spec fn sample_amount(spacing: PointSpacingType, separation: DVec2, quantity: u32) -> DVec2 {
    match spacing {
        PointSpacingType::Separation => separation,
        PointSpacingType::Quantity => number_of(quantity as u64),
    }
}

proof fn lemma_segments_grow(paths: Seq<Vec<PathElement>>, transform: DAffine2, n: nat, more: nat)
    requires
        n <= more,
    ensures
        segments_before(paths, transform, n) <= segments_before(paths, transform, more),
    decreases more,
{
    if n < more {
        lemma_segments_grow(paths, transform, n, (more - 1) as nat);
    }
}

/// The part of the numbers from one index up to another.
fn part(numbers: &Vec<DVec2>, from: usize, to: usize) -> (result: Vec<DVec2>)
    requires
        from <= to <= numbers@.len(),
    ensures
        result@ == numbers@.subrange(from as int, to as int),
{
    let mut result: Vec<DVec2> = Vec::new();
    let mut i: usize = from;
    while i < to
        invariant
            from <= i <= to <= numbers@.len(),
            result@ == numbers@.subrange(from as int, i as int),
        decreases to - i,
    {
        result.push(numbers[i]);
        i += 1;
        proof {
            assert(numbers@.subrange(from as int, i as int) == numbers@.subrange(from as int, i - 1).push(numbers@[i - 1]));
        }
    }
    result
}

/// What is to be sampled on the paths of a shape. The lengths are those of the segments of all paths, one
/// path after the other. The stroke of the shape gets the shape's transform.
pub fn sample_polyline(paths: &Vec<Vec<PathElement>>, style: &mut PathStyle, transform: DAffine2, spacing: PointSpacingType, separation: DVec2, quantity: u32, subpath_segment_lengths: &Vec<DVec2>) -> (tasks: Vec<SampleTask>)
    requires
        forall|i: int| 0 <= i < paths@.len() ==> begins((#[trigger] paths@[i])@),
        segments_before(paths@, transform, paths@.len()) <= subpath_segment_lengths@.len(),
    ensures
        tasks@.len() == paths@.len(),
        forall|i: int|
            0 <= i < paths@.len() ==> {
                &&& (#[trigger] tasks@[i]).path@ == map_path(paths@[i]@, transforming(transform))
                &&& tasks@[i].segment_lengths@ == subpath_segment_lengths@.subrange(
                    segments_before(paths@, transform, i as nat) as int,
                    segments_before(paths@, transform, (i + 1) as nat) as int,
                )
                &&& tasks@[i].amount == sample_amount(spacing, separation, quantity)
            },
        final(style)@ == old(style)@.with_stroke_transform(transform),
{
    style.set_stroke_transform(transform);
    let amount: DVec2 = match spacing {
        PointSpacingType::Separation => separation,
        PointSpacingType::Quantity => number(quantity as u64),
    };
    let mut tasks: Vec<SampleTask> = Vec::new();
    let mut next_segment_index: usize = 0;
    let mut i: usize = 0;
    while i < paths.len()
        invariant
            i <= paths.len(),
            amount == sample_amount(spacing, separation, quantity),
            forall|k: int| 0 <= k < paths@.len() ==> begins((#[trigger] paths@[k])@),
            segments_before(paths@, transform, paths@.len()) <= subpath_segment_lengths.len(),
            next_segment_index == segments_before(paths@, transform, i as nat),
            tasks@.len() == i,
            forall|k: int|
                0 <= k < i ==> {
                    &&& (#[trigger] tasks@[k]).path@ == map_path(paths@[k]@, transforming(transform))
                    &&& tasks@[k].segment_lengths@ == subpath_segment_lengths@.subrange(
                        segments_before(paths@, transform, k as nat) as int,
                        segments_before(paths@, transform, (k + 1) as nat) as int,
                    )
                    &&& tasks@[k].amount == amount
                },
        decreases paths.len() - i,
    {
        proof {
            assert(begins(paths@[i as int]@));
            lemma_segments_grow(paths@, transform, (i + 1) as nat, paths@.len());
        }
        let path: Vec<PathElement> = apply_affine(&paths[i], transform);
        let count: usize = segments(&path).len();
        let end: usize = next_segment_index + count;
        let segment_lengths: Vec<DVec2> = part(subpath_segment_lengths, next_segment_index, end);
        next_segment_index = end;
        tasks.push(SampleTask { path, segment_lengths, amount });
        i += 1;
    }
    tasks
}

/// The sampled path as it belongs to the shape, whose transform is taken back.
pub open spec fn taking_back(transform: DAffine2) -> spec_fn(Option<Vec<PathElement>>) -> Option<Seq<PathElement>> {
    |sampled: Option<Vec<PathElement>>|
        match sampled {
            Some(path) => Some(map_path(path@, transforming(affine_inverse(transform)))),
            None => None,
        }
}

/// The contents of paths.
pub open spec fn contents(paths: Seq<Vec<PathElement>>) -> Seq<Seq<PathElement>> {
    paths.map_values(|path: Vec<PathElement>| path@)
}

/// The paths that were sampled, as they belong to the shape. Where a path was too short to sample, there is
/// none.
pub fn place_samples(sampled: &Vec<Option<Vec<PathElement>>>, transform: DAffine2) -> (paths: Vec<Vec<PathElement>>)
    ensures
        contents(paths@) == sampled@.filter_map(taking_back(transform)),
{
    let ghost back = taking_back(transform);
    let mut paths: Vec<Vec<PathElement>> = Vec::new();
    let mut i: usize = 0;
    proof {
        assert(contents(paths@) == sampled@.take(0).filter_map(back)) by {
            reveal(Seq::filter_map);
        }
    }
    while i < sampled.len()
        invariant
            i <= sampled.len(),
            back == taking_back(transform),
            contents(paths@) == sampled@.take(i as int).filter_map(back),
        decreases sampled.len() - i,
    {
        let ghost before = paths@;
        proof {
            lemma_filter_map_take_step(sampled@, back, i as int);
        }
        if let Some(path) = &sampled[i] {
            paths.push(apply_inverse(path, transform));
            proof {
                assert(contents(paths@) == contents(before).push(paths@.last()@));
            }
        }
        i += 1;
    }
    proof {
        lemma_filter_map_take_ends(sampled@, back);
    }
    paths
}

/// A path that is closed at its end.
pub open spec fn closed(path: Seq<PathElement>) -> Seq<PathElement> {
    path.push(PathElement::ClosePath)
}

/// Whether points are taken from within a path: it has at least two segments once it is closed.
pub open spec fn has_inside(path: Seq<PathElement>) -> bool {
    path_segments(closed(path)).len() >= 2
}

/// A path, closed at its end.
pub fn close_at_end(path: &Vec<PathElement>) -> (result: Vec<PathElement>)
    ensures
        result@ == closed(path@),
{
    let mut result: Vec<PathElement> = Vec::new();
    append_copies(&mut result, path);
    result.push(PathElement::ClosePath);
    result
}

/// A closed path with the corners of the box around it.
#[derive(Debug)]
pub struct BoxedPath {
    pub path: Vec<PathElement>,
    pub corners: (DVec2, DVec2),
}

/// A path, closed at its end, with the box around it.
pub fn close_with_box(path: &Vec<PathElement>) -> (boxed: BoxedPath)
    requires
        path@.len() > 0,
        path@[0] is MoveTo,
    ensures
        boxed.path@ == closed(path@),
        boxed.corners == box_of(closed(path@)),
{
    let result: Vec<PathElement> = close_at_end(path);
    let corners: (DVec2, DVec2) = box_around_path(&result);
    BoxedPath { path: result, corners }
}

/// Whether points are taken from within a path. Only for such a path are any looked for.
pub fn encloses(path: &Vec<PathElement>) -> (result: bool)
    requires
        path@.len() > 0,
        path@[0] is MoveTo,
    ensures
        result == has_inside(path@),
{
    segments(&close_at_end(path)).len() >= 2
}

/// The points taken from within the first paths.
pub open spec fn points_within(paths: Seq<Vec<PathElement>>, found: Seq<Vec<DVec2>>, n: nat) -> Seq<DVec2>
    decreases n,
{
    if n == 0 {
        Seq::empty()
    } else {
        points_within(paths, found, (n - 1) as nat) + (if has_inside(paths[n - 1]@) {
            found[n - 1]@
        } else {
            Seq::empty()
        })
    }
}

/// The positions as points with the next identifiers.
pub open spec fn numbered(positions: Seq<DVec2>, ids: Seq<u64>, used: int) -> Seq<AnchorPoint> {
    Seq::new(positions.len(), |i: int| AnchorPoint { id: PointId(ids[used + i]), position: positions[i] })
}

/// The points depend only on the identifiers that they use.
proof fn lemma_numbered_prefix(positions: Seq<DVec2>, ids: Seq<u64>, more: Seq<u64>, used: int)
    requires
        ids.is_prefix_of(more),
        0 <= used,
        used + positions.len() <= ids.len(),
    ensures
        numbered(positions, ids, used) == numbered(positions, more, used),
{
    let points = numbered(positions, ids, used);
    let same = numbered(positions, more, used);
    assert forall|i: int| 0 <= i < points.len() implies #[trigger] points[i] == same[i] by {
        assert(ids[used + i] == more[used + i]);
    }
    assert(points == same);
}

/// The points of a shape that was filled with points at a distance from each other: those that were found
/// within each of its paths, as far as a path has an inside. They get the next identifiers, and the stroke of the shape
/// loses its transform.
pub fn poisson_disk_points(paths: &Vec<Vec<PathElement>>, style: &mut PathStyle, found: &Vec<Vec<DVec2>>, ids: &mut FreshIds) -> (points: Vec<AnchorPoint>)
    requires
        forall|i: int| 0 <= i < paths@.len() ==> (#[trigger] paths@[i])@.len() > 0 && paths@[i]@[0] is MoveTo,
        found@.len() == paths@.len(),
        old(ids).wf(),
    ensures
        continues(*old(ids), *final(ids)),
        final(ids).used == old(ids).used + points@.len(),
        points@ == numbered(points_within(paths@, found@, paths@.len()), final(ids).values@, old(ids).used as int),
        final(style)@ == old(style)@.with_stroke_transform(identity()),
{
    style.set_stroke_transform(from_translation(splat(0)));
    let ghost start = *ids;
    let ghost used = ids.used as int;
    let mut points: Vec<AnchorPoint> = Vec::new();
    let mut i: usize = 0;
    while i < paths.len()
        invariant
            i <= paths.len(),
            forall|k: int| 0 <= k < paths@.len() ==> (#[trigger] paths@[k])@.len() > 0 && paths@[k]@[0] is MoveTo,
            found@.len() == paths@.len(),
            used == start.used,
            continues(start, *ids),
            ids.used == used + points@.len(),
            points@ == numbered(points_within(paths@, found@, i as nat), ids.values@, used),
        decreases paths.len() - i,
    {
        let ghost done = points_within(paths@, found@, i as nat);
        proof {
            assert(paths@[i as int]@.len() > 0);
        }
        if encloses(&paths[i]) {
            let positions: &Vec<DVec2> = &found[i];
            let mut k: usize = 0;
            proof {
                assert(done + positions@.take(0) == done);
            }
            while k < positions.len()
                invariant
                    k <= positions.len(),
                    used == start.used,
                    continues(start, *ids),
                    ids.used == used + points@.len(),
                    points@ == numbered(done + positions@.take(k as int), ids.values@, used),
                decreases positions.len() - k,
            {
                let ghost before = ids.values@;
                let ghost so_far = done + positions@.take(k as int);
                let id: PointId = PointId(ids.generate());
                points.push(AnchorPoint { id, position: positions[k] });
                k += 1;
                proof {
                    lemma_numbered_prefix(so_far, before, ids.values@, used);
                    let next = done + positions@.take(k as int);
                    assert(next == so_far.push(positions@[k - 1]));
                    assert(points@ == numbered(next, ids.values@, used));
                }
            }
            proof {
                assert(positions@.take(k as int) == positions@);
            }
        } else {
            proof {
                assert(done + Seq::<DVec2>::empty() == done);
            }
        }
        i += 1;
    }
    points
}

} // verus!
