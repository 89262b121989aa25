//! Flattening a tree of groups into one shape.
use glam::DAffine2;
use vstd::prelude::*;

use crate::exact::{lemma_after, Exact, Frame, Pair};
use crate::geometry::{compose, composition, from_translation, identity, splat};

verus! {

/// A shape within a tree: by which key it is found, and its transform.
#[derive(Clone, Copy, Debug)]
pub struct TreeShape {
    pub key: u64,
    pub transform: DAffine2,
}

/// What a row of a group holds.
#[derive(Debug)]
pub enum GraphicElement {
    /// A table of shapes.
    VectorData(Vec<TreeShape>),
    /// A group within the group.
    GraphicGroup(Vec<GroupRow>),
    /// Something without a shape, such as an image.
    Raster,
}

/// A row of a group, with its transform and the node that it came from.
#[derive(Debug)]
pub struct GroupRow {
    pub element: GraphicElement,
    pub transform: DAffine2,
    pub source_node_id: Option<u64>,
}

/// A shape in its place after flattening: which one it is, its transform, and what the identifiers of its
/// points are made unique with.
#[derive(Clone, Copy, Debug)]
pub struct FlatShape {
    pub key: u64,
    pub transform: DAffine2,
    /// The index of the row of the group, the index of the shape in its table, and the node that the row
    /// came from, or zero.
    pub seed: (usize, usize, u64),
}

/// All hashes that a `DefaultHasher` may give for three numbers, in one release of the standard library or another.
pub uninterp spec fn hashes_of(group_index: usize, vector_index: usize, node: u64) -> Set<u64>;

/// Calls `BuildHasher::hash_one` for a new `DefaultHasher`. The hash is only said to be one of those that may be given for
/// the three numbers: the algorithm may change with a release of the standard library.
#[verifier::external_body]
fn hash(group_index: usize, vector_index: usize, node: u64) -> (result: u64)
    ensures
        hashes_of(group_index, vector_index, node).contains(result),
{
    let state = std::hash::BuildHasherDefault::<std::hash::DefaultHasher>::default();
    std::hash::BuildHasher::hash_one(&state, (group_index, vector_index, node))
}

impl FlatShape {
    /// The number that the identifiers of the shape's points are made unique with.
    pub fn collision_hash_seed(&self) -> (result: u64)
        ensures
            hashes_of(self.seed.0, self.seed.1, self.seed.2).contains(result),
    {
        hash(self.seed.0, self.seed.1, self.seed.2)
    }
}

/// The transform of a row, after that of the groups around it.
pub open spec fn whole_transform(outer: Option<DAffine2>, own: DAffine2) -> DAffine2 {
    match outer {
        Some(transform) => composition(transform, own),
        None => own,
    }
}

/// The node that a row came from, or zero.
pub open spec fn node_of(row: GroupRow) -> u64 {
    match row.source_node_id {
        Some(id) => id,
        None => 0,
    }
}

/// The shapes of a table.
pub open spec fn flat_table(shapes: Seq<TreeShape>, transform: DAffine2, index: int, node: u64) -> Seq<FlatShape> {
    Seq::new(
        shapes.len(),
        |i: int|
            FlatShape {
                key: shapes[i].key,
                transform: composition(transform, shapes[i].transform),
                seed: (index as usize, i as usize, node),
            },
    )
}

/// The shapes of the first rows of a group, and of the groups within it, in the order in which they stand.
pub open spec fn flat_rows(rows: Seq<GroupRow>, outer: Option<DAffine2>, n: nat) -> Seq<FlatShape>
    decreases rows, n,
{
    if n == 0 || n > rows.len() {
        Seq::empty()
    } else {
        let row = rows[n - 1];
        let transform = whole_transform(outer, row.transform);
        flat_rows(rows, outer, (n - 1) as nat) + (match row.element {
            GraphicElement::VectorData(shapes) => flat_table(shapes@, transform, n - 1, node_of(row)),
            GraphicElement::GraphicGroup(children) => flat_rows(children@, Some(transform), children@.len()),
            GraphicElement::Raster => Seq::empty(),
        })
    }
}

/// Adds the shapes of a table.
fn append_table(shapes: &Vec<TreeShape>, transform: DAffine2, index: usize, node: u64, output: &mut Vec<FlatShape>)
    ensures
        final(output)@ == old(output)@ + flat_table(shapes@, transform, index as int, node),
{
    let ghost done = output@;
    let ghost all = flat_table(shapes@, transform, index as int, node);
    let mut i: usize = 0;
    while i < shapes.len()
        invariant
            i <= shapes.len(),
            all == flat_table(shapes@, transform, index as int, node),
            output@ == done + all.take(i as int),
        decreases shapes.len() - i,
    {
        let shape: TreeShape = shapes[i];
        output.push(FlatShape { key: shape.key, transform: compose(transform, shape.transform), seed: (index, i, node) });
        i += 1;
        proof {
            assert(all.take(i as int) == all.take(i - 1).push(all[i - 1]));
        }
    }
    proof {
        assert(all.take(i as int) == all);
    }
}

/// Adds the shapes of a group and of the groups within it.
fn flatten_group(rows: &Vec<GroupRow>, outer: Option<DAffine2>, output: &mut Vec<FlatShape>)
    ensures
        final(output)@ == old(output)@ + flat_rows(rows@, outer, rows@.len()),
    decreases rows@,
{
    let ghost done = output@;
    let mut i: usize = 0;
    while i < rows.len()
        invariant
            i <= rows.len(),
            output@ == done + flat_rows(rows@, outer, i as nat),
        decreases rows.len() - i,
    {
        let row: &GroupRow = &rows[i];
        let transform: DAffine2 = match outer {
            Some(around) => compose(around, row.transform),
            None => row.transform,
        };
        let node: u64 = match row.source_node_id {
            Some(id) => id,
            None => 0,
        };
        match &row.element {
            GraphicElement::VectorData(shapes) => append_table(shapes, transform, i, node, output),
            GraphicElement::GraphicGroup(children) => {
                proof {
                    assert(decreases_to!(rows@ => rows@[i as int]));
                }
                flatten_group(children, Some(transform), output);
            },
            GraphicElement::Raster => {},
        }
        i += 1;
    }
}

/// The shapes of a tree as the only row of a group, each with the transform that takes it to its place.
pub open spec fn flattened(element: GraphicElement) -> Seq<FlatShape> {
    flat_rows(seq![GroupRow { element, transform: identity(), source_node_id: None }], None, 1)
}

/// Flattens a tree: lists its shapes in the order in which they are drawn into one, each with the transform
/// that takes it to its place.
pub fn flatten_path(element: GraphicElement) -> (output: Vec<FlatShape>)
    ensures
        output@ == flattened(element),
{
    let mut rows: Vec<GroupRow> = Vec::new();
    rows.push(GroupRow { element, transform: from_translation(splat(0)), source_node_id: None });
    let mut output: Vec<FlatShape> = Vec::new();
    proof {
        assert(rows@ == seq![GroupRow { element, transform: identity(), source_node_id: None }]);
    }
    flatten_group(&rows, None, &mut output);
    output
}

/// The shape whose style the flattened one takes: the last of them.
pub fn flattened_style(output: &Vec<FlatShape>) -> (key: Option<u64>)
    ensures
        key == (if output@.len() == 0 {
            None
        } else {
            Some(output@.last().key)
        }),
{
    if output.len() == 0 {
        None
    } else {
        Some(output[output.len() - 1].key)
    }
}

/// The keys of the shapes of the first rows of a group, and of the groups within it.
pub open spec fn tree_keys(rows: Seq<GroupRow>, n: nat) -> Seq<u64>
    decreases rows, n,
{
    if n == 0 || n > rows.len() {
        Seq::empty()
    } else {
        tree_keys(rows, (n - 1) as nat) + (match rows[n - 1].element {
            GraphicElement::VectorData(shapes) => shapes@.map_values(|shape: TreeShape| shape.key),
            GraphicElement::GraphicGroup(children) => tree_keys(children@, children@.len()),
            GraphicElement::Raster => Seq::empty(),
        })
    }
}

/// The keys of flattened shapes.
pub open spec fn flat_keys(shapes: Seq<FlatShape>) -> Seq<u64> {
    shapes.map_values(|shape: FlatShape| shape.key)
}

/// Flattening lists every shape of the tree once, in the order of the tree, wherever the transforms take it.
pub proof fn flattening_lists_every_shape(rows: Seq<GroupRow>, outer: Option<DAffine2>, n: nat)
    requires
        n <= rows.len(),
    ensures
        flat_keys(flat_rows(rows, outer, n)) == tree_keys(rows, n),
    decreases rows, n,
{
    if n > 0 {
        let row = rows[n - 1];
        let transform = whole_transform(outer, row.transform);
        let before = flat_rows(rows, outer, (n - 1) as nat);
        flattening_lists_every_shape(rows, outer, (n - 1) as nat);
        match row.element {
            GraphicElement::VectorData(shapes) => {
                let own = flat_table(shapes@, transform, n - 1, node_of(row));
                assert(flat_keys(own) == shapes@.map_values(|shape: TreeShape| shape.key));
                assert(flat_keys(before + own) == flat_keys(before) + flat_keys(own));
            },
            GraphicElement::GraphicGroup(children) => {
                flattening_lists_every_shape(children@, Some(transform), children@.len());
                let own = flat_rows(children@, Some(transform), children@.len());
                assert(flat_keys(before + own) == flat_keys(before) + flat_keys(own));
            },
            GraphicElement::Raster => {
                assert(flat_keys(before + Seq::<FlatShape>::empty()) == flat_keys(before) + Seq::<u64>::empty());
            },
        }
    } else {
        assert(flat_keys(flat_rows(rows, outer, n)) == Seq::<u64>::empty());
    }
}

/// Where a transform, if there is one, takes a point.
pub open spec fn taken(exact: Exact, transform: Option<DAffine2>, p: Pair) -> Pair {
    match transform {
        Some(t) => (exact.frame)(t).take(p),
        None => p,
    }
}

/// The shapes of a group that stands in another come out as they would on their own, and each is then taken by what is
/// around the group.
pub proof fn outer_transforms_come_last(
    exact: Exact,
    rows: Seq<GroupRow>,
    inner: Option<DAffine2>,
    outer: Option<DAffine2>,
    around: Frame,
    n: nat,
)
    requires
        exact.wf(),
        n <= rows.len(),
        forall|p: Pair| #[trigger] taken(exact, outer, p) == around.take(taken(exact, inner, p)),
    ensures
        flat_rows(rows, outer, n).len() == flat_rows(rows, inner, n).len(),
        forall|i: int, p: Pair|
            0 <= i < flat_rows(rows, inner, n).len() ==> #[trigger] (exact.frame)(flat_rows(rows, outer, n)[i].transform).take(p) == around.take(
                (exact.frame)(flat_rows(rows, inner, n)[i].transform).take(p),
            ),
    decreases rows, n,
{
    if n > 0 {
        let row = rows[n - 1];
        outer_transforms_come_last(exact, rows, inner, outer, around, (n - 1) as nat);
        let (s, t) = (whole_transform(inner, row.transform), whole_transform(outer, row.transform));
        assert forall|p: Pair| #[trigger] taken(exact, Some(t), p) == around.take(taken(exact, Some(s), p)) by {
            lemma_whole(exact, inner, row.transform, p);
            lemma_whole(exact, outer, row.transform, p);
            let q = (exact.frame)(row.transform).take(p);
            assert(taken(exact, outer, q) == around.take(taken(exact, inner, q)));
        }
        let (a, b) = (flat_rows(rows, inner, (n - 1) as nat), flat_rows(rows, outer, (n - 1) as nat));
        let (all_a, all_b) = (flat_rows(rows, inner, n), flat_rows(rows, outer, n));
        match row.element {
            GraphicElement::VectorData(shapes) => {
                let (own_a, own_b) = (flat_table(shapes@, s, n - 1, node_of(row)), flat_table(shapes@, t, n - 1, node_of(row)));
                assert(all_a == a + own_a && all_b == b + own_b);
                assert forall|i: int, p: Pair| 0 <= i < all_a.len() implies #[trigger] (exact.frame)(all_b[i].transform).take(p)
                    == around.take((exact.frame)(all_a[i].transform).take(p)) by {
                    if i < a.len() {
                        assert(all_b[i] == b[i] && all_a[i] == a[i]);
                        assert((exact.frame)(b[i].transform).take(p) == around.take((exact.frame)(a[i].transform).take(p)));
                    } else {
                        let j = i - a.len();
                        let shape = (exact.frame)(shapes@[j].transform);
                        assert(all_a[i] == own_a[j] && all_b[i] == own_b[j]);
                        lemma_after((exact.frame)(s), shape, p);
                        lemma_after((exact.frame)(t), shape, p);
                        assert(taken(exact, Some(t), shape.take(p)) == around.take(taken(exact, Some(s), shape.take(p))));
                    }
                }
            },
            GraphicElement::GraphicGroup(children) => {
                outer_transforms_come_last(exact, children@, Some(s), Some(t), around, children@.len());
                let (own_a, own_b) = (flat_rows(children@, Some(s), children@.len()), flat_rows(children@, Some(t), children@.len()));
                assert(all_a == a + own_a && all_b == b + own_b);
                assert forall|i: int, p: Pair| 0 <= i < all_a.len() implies #[trigger] (exact.frame)(all_b[i].transform).take(p)
                    == around.take((exact.frame)(all_a[i].transform).take(p)) by {
                    if i < a.len() {
                        assert(all_b[i] == b[i] && all_a[i] == a[i]);
                        assert((exact.frame)(b[i].transform).take(p) == around.take((exact.frame)(a[i].transform).take(p)));
                    } else {
                        let j = i - a.len();
                        assert(all_a[i] == own_a[j] && all_b[i] == own_b[j]);
                        assert((exact.frame)(own_b[j].transform).take(p) == around.take((exact.frame)(own_a[j].transform).take(p)));
                    }
                }
            },
            GraphicElement::Raster => {
                assert(all_a == a && all_b == b);
            },
        }
    }
}

/// What is around a row takes a point after the row's own transform.
proof fn lemma_whole(exact: Exact, around: Option<DAffine2>, own: DAffine2, p: Pair)
    requires
        exact.wf(),
    ensures
        taken(exact, Some(whole_transform(around, own)), p) == taken(exact, around, (exact.frame)(own).take(p)),
{
    match around {
        Some(t) => lemma_after((exact.frame)(t), (exact.frame)(own), p),
        None => {},
    }
}

} // verus!
