//! A set of identifiers that remembers the order in which they were inserted.
use vstd::prelude::*;

use crate::ids::Identifier;
use crate::sequences::{lemma_filter_members, lemma_filter_no_duplicates, lemma_filter_take_ends, lemma_filter_take_step};

verus! {

/// The sequence without the occurrences of `item`.
pub open spec fn without<T>(items: Seq<T>, item: T) -> Seq<T> {
    items.filter(|other: T| other != item)
}

/// The sequence with `item` at its end, unless it holds `item` already.
pub open spec fn with<T>(items: Seq<T>, item: T) -> Seq<T> {
    if items.contains(item) {
        items
    } else {
        items.push(item)
    }
}

/// The sequence with each of `more` inserted, first to last.
pub open spec fn with_all<T>(items: Seq<T>, more: Seq<T>) -> Seq<T>
    decreases more.len(),
{
    if more.len() == 0 {
        items
    } else {
        with(with_all(items, more.drop_last()), more.last())
    }
}

/// A set of identifiers. Its view is the sequence of its items, oldest first.
#[derive(Debug)]
pub struct IdSet<T> {
    pub items: Vec<T>,
}

impl<T> View for IdSet<T> {
    type V = Seq<T>;

    open spec fn view(&self) -> Seq<T> {
        self.items@
    }
}

impl<T: Identifier> IdSet<T> {
    /// Nothing occurs twice.
    pub open spec fn wf(&self) -> bool {
        self@.no_duplicates()
    }

    pub fn new() -> (set: Self)
        ensures
            set.wf(),
            set@ == Seq::<T>::empty(),
    {
        IdSet { items: Vec::new() }
    }

    pub fn len(&self) -> (len: usize)
        ensures
            len == self@.len(),
    {
        self.items.len()
    }

    pub fn contains(&self, item: T) -> (result: bool)
        ensures
            result == self@.contains(item),
    {
        let mut i: usize = 0;
        while i < self.items.len()
            invariant
                i <= self.items.len(),
                forall|j: int| 0 <= j < i ==> self@[j] != item,
            decreases self.items.len() - i,
        {
            if self.items[i].same(item) {
                return true;
            }
            i += 1;
        }
        false
    }

    pub fn insert(&mut self, item: T)
        requires
            old(self).wf(),
        ensures
            final(self).wf(),
            final(self)@ == with(old(self)@, item),
    {
        if !self.contains(item) {
            self.items.push(item);
        }
    }

    pub fn remove(&mut self, item: T)
        requires
            old(self).wf(),
        ensures
            final(self).wf(),
            final(self)@ == without(old(self)@, item),
    {
        let mut kept: Vec<T> = Vec::new();
        let ghost pred = |other: T| other != item;
        proof {
            lemma_filter_take_ends(self@, pred);
        }
        let mut i: usize = 0;
        while i < self.items.len()
            invariant
                i <= self.items.len(),
                pred == (|other: T| other != item),
                kept@ == self@.take(i as int).filter(pred),
            decreases self.items.len() - i,
        {
            proof {
                lemma_filter_take_step(self@, pred, i as int);
            }
            let other: T = self.items[i];
            if !other.same(item) {
                kept.push(other);
            }
            i += 1;
        }
        proof {
            lemma_filter_take_ends(self@, pred);
            lemma_filter_no_duplicates(self@, pred);
        }
        self.items = kept;
    }

    pub fn clear(&mut self)
        ensures
            final(self).wf(),
            final(self)@ == Seq::<T>::empty(),
    {
        self.items.clear();
    }

    /// Inserts each of `more`, first to last.
    pub fn insert_all(&mut self, more: &Vec<T>)
        requires
            old(self).wf(),
        ensures
            final(self).wf(),
            final(self)@ == with_all(old(self)@, more@),
    {
        let mut i: usize = 0;
        while i < more.len()
            invariant
                i <= more.len(),
                self.wf(),
                self@ == with_all(old(self)@, more@.take(i as int)),
            decreases more.len() - i,
        {
            proof {
                assert(more@.take(i + 1).drop_last() == more@.take(i as int));
            }
            self.insert(more[i]);
            i += 1;
        }
        proof {
            assert(more@.take(i as int) == more@);
        }
    }

    /// A set with the same items in the same order.
    pub fn duplicate(&self) -> (copy: Self)
        ensures
            copy@ == self@,
    {
        let mut items: Vec<T> = Vec::new();
        let mut i: usize = 0;
        while i < self.items.len()
            invariant
                i <= self.items.len(),
                items@ == self@.take(i as int),
            decreases self.items.len() - i,
        {
            items.push(self.items[i]);
            i += 1;
        }
        IdSet { items }
    }
}

/// Membership after an insertion: the new item and what was there before.
pub proof fn inserting_adds_one_item<T>(items: Seq<T>, item: T)
    ensures
        with(items, item).contains(item),
        forall|other: T| #[trigger]
            with(items, item).contains(other) <==> other == item || items.contains(other),
{
    let after = with(items, item);
    if !items.contains(item) {
        assert(after[items.len() as int] == item);
    }
    assert forall|other: T| #[trigger]
        after.contains(other) <==> other == item || items.contains(other) by {
        if items.contains(other) {
            let k = choose|k: int| 0 <= k < items.len() && items[k] == other;
            assert(after[k] == other);
        }
    }
}

/// Membership after a removal: all that was there before but the removed item.
pub proof fn removing_takes_one_item<T>(items: Seq<T>, item: T)
    ensures
        forall|other: T| #[trigger]
            without(items, item).contains(other) <==> other != item && items.contains(other),
{
    lemma_filter_members(items, |other: T| other != item);
}

} // verus!
