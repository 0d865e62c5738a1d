//! A single cell of a zone and the entities in it, by id.

use vstd::prelude::*;

use crate::lists::{occurrences, remove_first, lemma_occurrences_contains, lemma_remove_first_at};

verus! {

/// A cell with its index and the ids of the entities in it, in the order
/// they were added.
pub struct MetaitusCell {
    pub index: u32,
    pub entities: Vec<u32>,
}

impl MetaitusCell {
    /// An empty cell with index `index`.
    pub fn new(index: u32) -> (c: MetaitusCell)
        ensures
            c.index == index,
            c.entities@ == Seq::<u32>::empty(),
    {
        MetaitusCell { index, entities: Vec::new() }
    }

    /// The index of the cell.
    pub fn get_index(&self) -> (i: u32)
        ensures
            i == self.index,
    {
        self.index
    }

    /// Adds an entity at the end.
    pub fn add_entity(&mut self, id: u32)
        ensures
            final(self).index == old(self).index,
            final(self).entities@ == old(self).entities@.push(id),
    {
        self.entities.push(id);
    }

    /// The entities of the cell.
    pub fn get_entities(&self) -> (v: &Vec<u32>)
        ensures
            v@ == self.entities@,
    {
        &self.entities
    }

    /// Removes the first entity with id `id`, and returns it, if the cell has
    /// one.
    pub fn remove_entity(&mut self, id: u32) -> (r: Option<u32>)
        ensures
            final(self).index == old(self).index,
            final(self).entities@ == remove_first(old(self).entities@, id),
            r == if old(self).entities@.contains(id) {
                Some(id)
            } else {
                None::<u32>
            },
    {
        proof {
            lemma_occurrences_contains(self.entities@, id);
        }
        let mut j: usize = 0;
        while j < self.entities.len()
            invariant
                j <= self.entities@.len(),
                self.entities@ == old(self).entities@,
                self.index == old(self).index,
                forall|i: int| 0 <= i < j ==> self.entities@[i] != id,
            decreases self.entities@.len() - j,
        {
            if self.entities[j] == id {
                proof {
                    lemma_remove_first_at(self.entities@, id, j as int);
                }
                let e = self.entities.remove(j);
                return Some(e);
            }
            j = j + 1;
        }
        proof {
            lemma_not_found_unchanged(self.entities@, id);
        }
        None
    }
}

proof fn lemma_not_found_unchanged(s: Seq<u32>, x: u32)
    requires
        forall|i: int| 0 <= i < s.len() ==> s[i] != x,
    ensures
        remove_first(s, x) == s,
        !s.contains(x),
    decreases s.len(),
{
    if s.len() > 0 {
        assert forall|i: int| 0 <= i < s.skip(1).len() implies s.skip(1)[i] != x by {
            assert(s.skip(1)[i] == s[i + 1]);
        }
        lemma_not_found_unchanged(s.skip(1), x);
        assert(seq![s[0]] + s.skip(1) =~= s);
    }
}

} // verus!
