//! The lengths and areas of the paths of shapes.
use glam::{DAffine2, DVec2};
use vstd::prelude::*;

use crate::geometry::{plus, product, splat, sum, times, x, x_of, y, y_of, zero};
use crate::paths::{
    apply_affine, area_of, area_within, is_perimeter, map_path, path_segments, perimeter, segments, transforming, PathElement, PathSegment,
};
use crate::sampling::{begins, segments_before};

verus! {

/// The paths of a shape with its transform.
#[derive(Debug)]
pub struct PathsRow {
    pub paths: Vec<Vec<PathElement>>,
    pub transform: DAffine2,
}

impl PathsRow {
    /// Each path begins by moving the pen, or is empty.
    pub open spec fn wf(&self) -> bool {
        forall|i: int| 0 <= i < self.paths@.len() ==> begins((#[trigger] self.paths@[i])@)
    }
}

/// The sum of the first numbers, from zero on.
pub open spec fn sum_of_first(numbers: Seq<DVec2>, n: nat) -> DVec2
    decreases n,
{
    if n == 0 {
        zero()
    } else {
        sum(sum_of_first(numbers, (n - 1) as nat), numbers[n - 1])
    }
}

/// The sum of numbers.
pub open spec fn sum_of(numbers: Seq<DVec2>) -> DVec2 {
    sum_of_first(numbers, numbers.len())
}

/// The sum of numbers.
pub fn add_up(numbers: &Vec<DVec2>) -> (total: DVec2)
    ensures
        total == sum_of(numbers@),
{
    let mut total: DVec2 = splat(0);
    let mut i: usize = 0;
    while i < numbers.len()
        invariant
            i <= numbers.len(),
            total == sum_of_first(numbers@, i as nat),
        decreases numbers.len() - i,
    {
        total = plus(total, numbers[i]);
        i += 1;
    }
    total
}

/// Whether numbers may be the lengths of segments, one for each in their order.
pub open spec fn are_perimeters(segments: Seq<PathSegment>, lengths: Seq<DVec2>) -> bool {
    &&& lengths.len() == segments.len()
    &&& forall|i: int| 0 <= i < segments.len() ==> is_perimeter(#[trigger] segments[i], lengths[i])
}

/// The segments of a path under a transform.
pub open spec fn placed_segments(path: Seq<PathElement>, transform: DAffine2) -> Seq<PathSegment> {
    path_segments(map_path(path, transforming(transform)))
}

/// The segments of the first paths of a shape under its transform, one after the other.
pub open spec fn segments_of_first(paths: Seq<Vec<PathElement>>, transform: DAffine2, n: nat) -> Seq<PathSegment>
    decreases n,
{
    if n == 0 {
        Seq::empty()
    } else {
        segments_of_first(paths, transform, (n - 1) as nat) + placed_segments(paths[n - 1]@, transform)
    }
}

/// The segments of the paths of the first shapes, one after the other.
pub open spec fn segments_of_rows(rows: Seq<PathsRow>, n: nat) -> Seq<PathSegment>
    decreases n,
{
    if n == 0 {
        Seq::empty()
    } else {
        let row = rows[n - 1];
        segments_of_rows(rows, (n - 1) as nat) + segments_of_first(row.paths@, row.transform, row.paths@.len())
    }
}

/// Lengths of some segments and of more after them are lengths of all.
proof fn lemma_perimeters_join(segments: Seq<PathSegment>, lengths: Seq<DVec2>, more: Seq<PathSegment>, more_lengths: Seq<DVec2>)
    requires
        are_perimeters(segments, lengths),
        are_perimeters(more, more_lengths),
    ensures
        are_perimeters(segments + more, lengths + more_lengths),
{
    let all = segments + more;
    let all_lengths = lengths + more_lengths;
    assert forall|i: int| 0 <= i < all.len() implies is_perimeter(#[trigger] all[i], all_lengths[i]) by {
        if i < segments.len() {
            assert(is_perimeter(segments[i], lengths[i]));
        } else {
            assert(is_perimeter(more[i - segments.len()], more_lengths[i - segments.len()]));
        }
    }
}

/// The segments of the first paths are as many as are counted.
proof fn lemma_segments_of_first_len(paths: Seq<Vec<PathElement>>, transform: DAffine2, n: nat)
    ensures
        segments_of_first(paths, transform, n).len() == segments_before(paths, transform, n),
    decreases n,
{
    if n > 0 {
        lemma_segments_of_first_len(paths, transform, (n - 1) as nat);
    }
}

/// Measures the segments of a path under the transform.
fn measure_path(path: &Vec<PathElement>, transform: DAffine2) -> (lengths: Vec<DVec2>)
    requires
        begins(path@),
    ensures
        are_perimeters(placed_segments(path@, transform), lengths@),
{
    let mut lengths: Vec<DVec2> = Vec::new();
    let placed: Vec<PathElement> = apply_affine(path, transform);
    let parts: Vec<PathSegment> = segments(&placed);
    let mut i: usize = 0;
    while i < parts.len()
        invariant
            i <= parts.len(),
            lengths@.len() == i,
            forall|k: int| 0 <= k < i ==> is_perimeter(#[trigger] parts@[k], lengths@[k]),
        decreases parts.len() - i,
    {
        lengths.push(perimeter(parts[i]));
        i += 1;
    }
    lengths
}

/// The lengths of all segments of the paths of shapes, under their transforms, one after the other.
pub fn subpath_segment_lengths(rows: &Vec<PathsRow>) -> (lengths: Vec<DVec2>)
    requires
        forall|i: int| 0 <= i < rows@.len() ==> (#[trigger] rows@[i]).wf(),
    ensures
        are_perimeters(segments_of_rows(rows@, rows@.len()), lengths@),
        lengths@.len() == all_segments(rows@, rows@.len()),
{
    let mut lengths: Vec<DVec2> = Vec::new();
    let mut i: usize = 0;
    while i < rows.len()
        invariant
            i <= rows.len(),
            forall|k: int| 0 <= k < rows@.len() ==> (#[trigger] rows@[k]).wf(),
            are_perimeters(segments_of_rows(rows@, i as nat), lengths@),
            lengths@.len() == all_segments(rows@, i as nat),
        decreases rows.len() - i,
    {
        let row: &PathsRow = &rows[i];
        proof {
            assert(rows@[i as int].wf());
        }
        let ghost before = lengths@;
        let ghost measured = segments_of_rows(rows@, i as nat);
        proof {
            assert(measured + segments_of_first(row.paths@, row.transform, 0) == measured);
        }
        let mut k: usize = 0;
        while k < row.paths.len()
            invariant
                k <= row.paths.len(),
                row.wf(),
                measured.len() == before.len(),
                are_perimeters(measured + segments_of_first(row.paths@, row.transform, k as nat), lengths@),
            decreases row.paths.len() - k,
        {
            proof {
                assert(begins(row.paths@[k as int]@));
            }
            let mut own: Vec<DVec2> = measure_path(&row.paths[k], row.transform);
            proof {
                let first = segments_of_first(row.paths@, row.transform, k as nat);
                let next = placed_segments(row.paths@[k as int]@, row.transform);
                lemma_perimeters_join(measured + first, lengths@, next, own@);
                assert((measured + first) + next == measured + segments_of_first(row.paths@, row.transform, (k + 1) as nat));
            }
            lengths.append(&mut own);
            k += 1;
        }
        proof {
            lemma_segments_of_first_len(row.paths@, row.transform, row.paths@.len());
        }
        i += 1;
    }
    lengths
}

/// How many segments the paths of the first shapes have.
pub open spec fn all_segments(rows: Seq<PathsRow>, n: nat) -> nat
    decreases n,
{
    if n == 0 {
        0
    } else {
        let row = rows[n - 1];
        all_segments(rows, (n - 1) as nat) + segments_before(row.paths@, row.transform, row.paths@.len())
    }
}

/// The sums of the numbers of each row.
pub open spec fn row_sums(rows: Seq<Vec<DVec2>>) -> Seq<DVec2> {
    rows.map_values(|row: Vec<DVec2>| sum_of(row@))
}

/// The sum of the lengths of the paths of shapes, given for each shape those of its paths.
pub fn path_length_by_lengths(rows: &Vec<Vec<DVec2>>) -> (total: DVec2)
    ensures
        total == sum_of(row_sums(rows@)),
{
    let ghost sums = row_sums(rows@);
    let mut total: DVec2 = splat(0);
    let mut i: usize = 0;
    while i < rows.len()
        invariant
            i <= rows.len(),
            sums == row_sums(rows@),
            total == sum_of_first(sums, i as nat),
        decreases rows.len() - i,
    {
        total = plus(total, add_up(&rows[i]));
        i += 1;
    }
    total
}

/// Whether a number is the sum of lengths of the segments of a path under the transform.
pub open spec fn is_length_of(length: DVec2, path: Seq<PathElement>, transform: DAffine2) -> bool {
    exists|parts: Seq<DVec2>| #[trigger] are_perimeters(placed_segments(path, transform), parts) && length == sum_of(parts)
}

/// Whether each of the first numbers is the length of the path at its place.
pub open spec fn are_lengths_in(lengths: Seq<DVec2>, row: PathsRow, n: nat) -> bool {
    &&& lengths.len() == n
    &&& forall|k: int| 0 <= k < n ==> is_length_of(#[trigger] lengths[k], row.paths@[k]@, row.transform)
}

/// Whether the numbers are the lengths of each path of each of the first shapes.
pub open spec fn are_lengths_of(lengths: Seq<Vec<DVec2>>, rows: Seq<PathsRow>, n: nat) -> bool {
    &&& lengths.len() == n
    &&& forall|i: int| 0 <= i < n ==> are_lengths_in((#[trigger] lengths[i])@, rows[i], rows[i].paths@.len())
}

/// The length of all paths of shapes, under their transforms.
///
/// The lengths of the paths are measured here; what follows from them is what [`path_length_by_lengths`] does.
pub fn path_length(rows: &Vec<PathsRow>) -> (total: DVec2)
    requires
        forall|i: int| 0 <= i < rows@.len() ==> (#[trigger] rows@[i]).wf(),
    ensures
        exists|lengths: Seq<Vec<DVec2>>| #[trigger] are_lengths_of(lengths, rows@, rows@.len()) && total == sum_of(row_sums(lengths)),
{
    let mut lengths: Vec<Vec<DVec2>> = Vec::new();
    let mut i: usize = 0;
    while i < rows.len()
        invariant
            i <= rows.len(),
            forall|k: int| 0 <= k < rows@.len() ==> (#[trigger] rows@[k]).wf(),
            are_lengths_of(lengths@, rows@, i as nat),
        decreases rows.len() - i,
    {
        let row: &PathsRow = &rows[i];
        proof {
            assert(rows@[i as int].wf());
        }
        let mut own: Vec<DVec2> = Vec::new();
        let mut k: usize = 0;
        while k < row.paths.len()
            invariant
                k <= row.paths.len(),
                row.wf(),
                are_lengths_in(own@, *row, k as nat),
            decreases row.paths.len() - k,
        {
            proof {
                assert(begins(row.paths@[k as int]@));
            }
            let parts: Vec<DVec2> = measure_path(&row.paths[k], row.transform);
            let length: DVec2 = add_up(&parts);
            proof {
                assert(are_perimeters(placed_segments(row.paths@[k as int]@, row.transform), parts@));
                assert(is_length_of(length, row.paths@[k as int]@, row.transform));
            }
            own.push(length);
            k += 1;
        }
        lengths.push(own);
        i += 1;
    }
    proof {
        assert(are_lengths_of(lengths@, rows@, rows@.len()));
    }
    path_length_by_lengths(&lengths)
}

/// The paths of a shape with the scale of its transform along the two axes.
#[derive(Debug)]
pub struct ScaledPaths {
    pub paths: Vec<Vec<PathElement>>,
    pub scale: DVec2,
}

impl ScaledPaths {
    /// Each path begins by moving the pen, or is empty.
    pub open spec fn wf(&self) -> bool {
        forall|i: int| 0 <= i < self.paths@.len() ==> begins((#[trigger] self.paths@[i])@)
    }

    /// The areas within the paths, scaled along both axes.
    pub open spec fn areas(&self) -> Seq<DVec2> {
        self.paths@.map_values(
            |path: Vec<PathElement>| product(product(area_of(path@), x_of(self.scale)), y_of(self.scale)),
        )
    }
}

/// The areas of shapes.
pub open spec fn areas_of(shapes: Seq<ScaledPaths>) -> Seq<DVec2> {
    shapes.map_values(|shape: ScaledPaths| sum_of(shape.areas()))
}

/// The area of all shapes together: that within each of their paths, scaled as the shape is.
pub fn area(shapes: &Vec<ScaledPaths>) -> (total: DVec2)
    requires
        forall|i: int| 0 <= i < shapes@.len() ==> (#[trigger] shapes@[i]).wf(),
    ensures
        total == sum_of(areas_of(shapes@)),
{
    let ghost all = areas_of(shapes@);
    let mut total: DVec2 = splat(0);
    let mut i: usize = 0;
    while i < shapes.len()
        invariant
            i <= shapes.len(),
            forall|k: int| 0 <= k < shapes@.len() ==> (#[trigger] shapes@[k]).wf(),
            all == areas_of(shapes@),
            total == sum_of_first(all, i as nat),
        decreases shapes.len() - i,
    {
        let shape: &ScaledPaths = &shapes[i];
        proof {
            assert(shapes@[i as int].wf());
        }
        let ghost own = shape.areas();
        let mut within: DVec2 = splat(0);
        let mut k: usize = 0;
        while k < shape.paths.len()
            invariant
                k <= shape.paths.len(),
                shape.wf(),
                own == shape.areas(),
                within == sum_of_first(own, k as nat),
            decreases shape.paths.len() - k,
        {
            proof {
                assert(begins(shape.paths@[k as int]@));
            }
            let scaled: DVec2 = times(times(area_within(&shape.paths[k]), x(shape.scale)), y(shape.scale));
            within = plus(within, scaled);
            k += 1;
        }
        total = plus(total, within);
        i += 1;
    }
    total
}

/// The segments of one shape are as many as the lengths that are measured of it, so that there is a length for
/// each segment when points are sampled along it.
pub proof fn every_segment_has_a_length(row: PathsRow)
    ensures
        all_segments(seq![row], 1) == segments_before(row.paths@, row.transform, row.paths@.len()),
{
    assert(all_segments(seq![row], 0) == 0);
    assert(seq![row][0] == row);
}

} // verus!
