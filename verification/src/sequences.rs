//! Facts about sequences that the other modules share.
use vstd::prelude::*;

verus! {

/// One more element under a filter: it is kept if it passes.
pub proof fn lemma_filter_take_step<T>(items: Seq<T>, pred: spec_fn(T) -> bool, i: int)
    requires
        0 <= i < items.len(),
    ensures
        items.take(i + 1).filter(pred) == if pred(items[i]) {
            items.take(i).filter(pred).push(items[i])
        } else {
            items.take(i).filter(pred)
        },
{
    reveal(Seq::filter);
    assert(items.take(i + 1).drop_last() == items.take(i));
}

/// A filter on nothing keeps nothing, and the whole sequence is its own longest prefix.
pub proof fn lemma_filter_take_ends<T>(items: Seq<T>, pred: spec_fn(T) -> bool)
    ensures
        items.take(0).filter(pred) == Seq::<T>::empty(),
        items.take(items.len() as int).filter(pred) == items.filter(pred),
{
    reveal(Seq::filter);
    assert(items.take(0) == Seq::<T>::empty());
    assert(items.take(items.len() as int) == items);
}

/// A filter keeps exactly the elements that pass.
pub proof fn lemma_filter_members<T>(items: Seq<T>, pred: spec_fn(T) -> bool)
    ensures
        forall|item: T| #[trigger]
            items.filter(pred).contains(item) <==> pred(item) && items.contains(item),
    decreases items.len(),
{
    reveal(Seq::filter);
    let out = items.filter(pred);
    if items.len() > 0 {
        let rest = items.drop_last();
        lemma_filter_members(rest, pred);
        assert forall|item: T| #[trigger]
            out.contains(item) <==> pred(item) && items.contains(item) by {
            assert(items.contains(item) <==> rest.contains(item) || item == items.last()) by {
                if items.contains(item) {
                    let k = choose|k: int| 0 <= k < items.len() && items[k] == item;
                    if k < rest.len() {
                        assert(rest[k] == item);
                    }
                }
                if rest.contains(item) {
                    let k = choose|k: int| 0 <= k < rest.len() && rest[k] == item;
                    assert(items[k] == item);
                }
            }
            assert(rest.filter(pred).contains(item) <==> pred(item) && rest.contains(item));
            if pred(items.last()) {
                assert(out == rest.filter(pred).push(items.last()));
                assert(out.contains(item) <==> rest.filter(pred).contains(item) || item
                    == items.last()) by {
                    if rest.filter(pred).contains(item) {
                        let k = choose|k: int|
                            0 <= k < rest.filter(pred).len() && rest.filter(pred)[k] == item;
                        assert(out[k] == item);
                    }
                    if item == items.last() {
                        assert(out[out.len() - 1] == item);
                    }
                }
            }
        }
    }
}

/// What a filter keeps of a sequence without repetition has no repetition.
pub proof fn lemma_filter_no_duplicates<T>(items: Seq<T>, pred: spec_fn(T) -> bool)
    requires
        items.no_duplicates(),
    ensures
        items.filter(pred).no_duplicates(),
    decreases items.len(),
{
    reveal(Seq::filter);
    if items.len() > 0 {
        let rest = items.drop_last();
        assert(rest.no_duplicates());
        lemma_filter_no_duplicates(rest, pred);
        lemma_filter_members(rest, pred);
        if pred(items.last()) {
            assert(!rest.contains(items.last()));
            assert(!rest.filter(pred).contains(items.last()));
        }
    }
}

/// One more element under a map to sequences: its image comes at the end.
pub proof fn lemma_flat_map_take_step<T, U>(items: Seq<T>, f: spec_fn(T) -> Seq<U>, i: int)
    requires
        0 <= i < items.len(),
    ensures
        items.take(i + 1).flat_map(f) == items.take(i).flat_map(f) + f(items[i]),
{
    items.lemma_flat_map_take_append(f, i);
}

/// A map to sequences has nothing to show of nothing, and the whole sequence is its own longest
/// prefix.
pub proof fn lemma_flat_map_take_ends<T, U>(items: Seq<T>, f: spec_fn(T) -> Seq<U>)
    ensures
        items.take(0).flat_map(f) == Seq::<U>::empty(),
        items.take(items.len() as int).flat_map(f) == items.flat_map(f),
{
    assert(items.take(0).map_values(f) == Seq::<Seq<U>>::empty());
    assert(Seq::<Seq<U>>::empty().flatten() == Seq::<U>::empty());
    assert(items.take(items.len() as int) == items);
}

/// The index of the first element that passes.
pub open spec fn first_index<T>(items: Seq<T>, pred: spec_fn(T) -> bool) -> Option<int>
    decreases items.len(),
{
    if items.len() == 0 {
        None
    } else {
        match first_index(items.drop_last(), pred) {
            Some(i) => Some(i),
            None => if pred(items.last()) {
                Some(items.len() - 1)
            } else {
                None
            },
        }
    }
}

/// The first element that passes.
pub open spec fn find_first<T>(items: Seq<T>, pred: spec_fn(T) -> bool) -> Option<T> {
    match first_index(items, pred) {
        Some(i) => Some(items[i]),
        None => None,
    }
}

/// What the first index is: an element there passes, and none before it does; without one, no
/// element passes.
pub proof fn lemma_first_index<T>(items: Seq<T>, pred: spec_fn(T) -> bool)
    ensures
        match first_index(items, pred) {
            Some(i) => 0 <= i < items.len() && pred(items[i]) && forall|j: int|
                0 <= j < i ==> !pred(#[trigger] items[j]),
            None => forall|j: int| 0 <= j < items.len() ==> !pred(#[trigger] items[j]),
        },
    decreases items.len(),
{
    if items.len() > 0 {
        let rest = items.drop_last();
        lemma_first_index(rest, pred);
        match first_index(rest, pred) {
            Some(i) => {
                assert(items[i] == rest[i]);
                assert forall|j: int| 0 <= j < i implies !pred(#[trigger] items[j]) by {
                    assert(items[j] == rest[j]);
                }
            },
            None => {
                assert forall|j: int| 0 <= j < rest.len() implies !pred(#[trigger] items[j]) by {
                    assert(items[j] == rest[j]);
                }
            },
        }
    }
}

/// An element that passes while none before it does is the first.
pub proof fn lemma_first_index_is<T>(items: Seq<T>, pred: spec_fn(T) -> bool, i: int)
    requires
        0 <= i < items.len(),
        pred(items[i]),
        forall|j: int| 0 <= j < i ==> !pred(#[trigger] items[j]),
    ensures
        first_index(items, pred) == Some(i),
{
    lemma_first_index(items, pred);
}

/// Where no element passes there is no first.
pub proof fn lemma_first_index_none<T>(items: Seq<T>, pred: spec_fn(T) -> bool)
    requires
        forall|j: int| 0 <= j < items.len() ==> !pred(#[trigger] items[j]),
    ensures
        first_index(items, pred) == None::<int>,
{
    lemma_first_index(items, pred);
}

/// One more element under a partial map: its image, if it has one, comes at the end.
pub proof fn lemma_filter_map_take_step<T, U>(items: Seq<T>, f: spec_fn(T) -> Option<U>, i: int)
    requires
        0 <= i < items.len(),
    ensures
        items.take(i + 1).filter_map(f) == match f(items[i]) {
            Some(image) => items.take(i).filter_map(f).push(image),
            None => items.take(i).filter_map(f),
        },
{
    reveal(Seq::filter_map);
    assert(items.take(i + 1).drop_last() == items.take(i));
    if let Some(image) = f(items[i]) {
        assert(items.take(i).filter_map(f) + seq![image] == items.take(i).filter_map(f).push(image));
    }
}

/// A partial map has nothing to show of nothing, and the whole sequence is its own longest prefix.
pub proof fn lemma_filter_map_take_ends<T, U>(items: Seq<T>, f: spec_fn(T) -> Option<U>)
    ensures
        items.take(0).filter_map(f) == Seq::<U>::empty(),
        items.take(items.len() as int).filter_map(f) == items.filter_map(f),
{
    reveal(Seq::filter_map);
    assert(items.take(0) == Seq::<T>::empty());
    assert(items.take(items.len() as int) == items);
}

/// The last item that satisfies the predicate.
pub open spec fn find_last<T>(items: Seq<T>, pred: spec_fn(T) -> bool) -> Option<T>
    decreases items.len(),
{
    if items.len() == 0 {
        None
    } else if pred(items.last()) {
        Some(items.last())
    } else {
        find_last(items.drop_last(), pred)
    }
}

/// What a filtered map holds: the images of the items that have one.
pub proof fn lemma_filter_map_members<T, U>(items: Seq<T>, f: spec_fn(T) -> Option<U>)
    ensures
        forall|image: U| #[trigger] items.filter_map(f).contains(image) ==> exists|i: int|
            0 <= i < items.len() && f(#[trigger] items[i]) == Some(image),
    decreases items.len(),
{
    lemma_filter_map_take_ends(items, f);
    if items.len() > 0 {
        let last = items.len() - 1;
        let rest = items.drop_last();
        lemma_filter_map_members(rest, f);
        lemma_filter_map_take_step(items, f, last);
        assert(items.take(last) == rest);
        assert(items.take(last + 1) == items);
        assert forall|image: U| #[trigger] items.filter_map(f).contains(image) implies exists|i: int|
            0 <= i < items.len() && f(#[trigger] items[i]) == Some(image) by {
            if rest.filter_map(f).contains(image) {
                let i = choose|i: int| 0 <= i < rest.len() && f(#[trigger] rest[i]) == Some(image);
                assert(items[i] == rest[i]);
            } else {
                assert(f(items[last]) == Some(image));
            }
        }
    }
}

/// A sequence without duplicates whose items are all in another one is not longer than that one.
pub proof fn lemma_distinct_items_fit<T>(items: Seq<T>, among: Seq<T>)
    requires
        items.no_duplicates(),
        forall|item: T| #[trigger] items.contains(item) ==> among.contains(item),
    ensures
        items.len() <= among.len(),
{
    items.unique_seq_to_set();
    among.lemma_cardinality_of_set();
    assert forall|item: T| #[trigger] items.to_set().contains(item) implies among.to_set().contains(item) by {
        assert(items.contains(item));
    }
    vstd::set_lib::lemma_len_subset(items.to_set(), among.to_set());
}

/// Appends the items.
pub(crate) fn append_copies<T: Copy>(target: &mut Vec<T>, items: &Vec<T>)
    ensures
        final(target)@ == old(target)@ + items@,
{
    let mut i: usize = 0;
    while i < items.len()
        invariant
            i <= items.len(),
            target@ == old(target)@ + items@.take(i as int),
        decreases items.len() - i,
    {
        target.push(items[i]);
        i += 1;
    }
    proof {
        assert(items@.take(i as int) == items@);
    }
}

} // verus!
