//! Identifiers for new points and segments.
use vstd::prelude::*;

verus! {

/// Calls `rand::random` for a number. Nothing is claimed of which number comes.
#[verifier::external_body]
fn random_number() -> u64 {
    rand::random()
}

/// Where the identifiers of new points and segments come from: first those that are given, then
/// random ones.
#[derive(Debug)]
pub struct FreshIds {
    /// The identifiers handed out so far and those given in advance.
    pub values: Vec<u64>,
    /// How many have been handed out.
    pub used: usize,
}

/// Whether the identifiers after an edit continue those before it.
pub open spec fn continues(before: FreshIds, after: FreshIds) -> bool {
    &&& after.wf()
    &&& before.used <= after.used
    &&& before.values@.is_prefix_of(after.values@)
    &&& after.used <= before.values@.len() ==> after.values@ == before.values@
}

impl FreshIds {
    pub open spec fn wf(&self) -> bool {
        self.used <= self.values@.len()
    }

    /// Only random identifiers.
    pub fn random() -> (ids: Self)
        ensures
            ids.wf(),
            ids.used == 0,
            ids.values@ == Seq::<u64>::empty(),
    {
        FreshIds { values: Vec::new(), used: 0 }
    }

    /// The given identifiers, then random ones.
    pub fn given(values: Vec<u64>) -> (ids: Self)
        ensures
            ids.wf(),
            ids.used == 0,
            ids.values@ == values@,
    {
        FreshIds { values, used: 0 }
    }

    /// The next identifier.
    pub fn generate(&mut self) -> (id: u64)
        requires
            old(self).wf(),
        ensures
            continues(*old(self), *final(self)),
            final(self).used == old(self).used + 1,
            id == final(self).values@[old(self).used as int],
    {
        if self.used == self.values.len() {
            let number: u64 = random_number();
            self.values.push(number);
        }
        let len: usize = self.values.len();
        assert(self.used < len);
        let id: u64 = self.values[self.used];
        self.used += 1;
        id
    }
}

} // verus!
