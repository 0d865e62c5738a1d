use vstd::prelude::*;

verus! {

/// Hands out consecutive 32-bit identifiers, starting from a chosen first one.
pub struct IdGen {
    next_id: u32,
}

impl IdGen {
    /// The identifier that the next call of `get` hands out.
    pub closed spec fn next(&self) -> u32 {
        self.next_id
    }

    /// A generator whose first identifier is `first_id`.
    pub fn new(first_id: u32) -> (gen: Self)
        ensures
            gen.next() == first_id,
    {
        IdGen { next_id: first_id }
    }

    /// Returns the next identifier and advances the generator by one.
    pub fn get(&mut self) -> (id: u32)
        requires
            old(self).next() < u32::MAX,
        ensures
            id == old(self).next(),
            final(self).next() == old(self).next() + 1,
    {
        let id = self.next_id;
        self.next_id = self.next_id + 1;
        id
    }
}

} // verus!
