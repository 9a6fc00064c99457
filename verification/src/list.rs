//! The growable list that backs every asset collection of the project.

use vstd::prelude::*;

verus! {

/// An owned, index-addressed list of records. A slot holding `None` in an
/// asset list stands for a deleted asset; indexes are never compacted
/// within one session.
pub struct DelphiList<T> {
    pub items: Vec<T>,
}

impl<T> DelphiList<T> {
    /// An empty list.
    pub fn new() -> (r: DelphiList<T>)
        ensures
            r.items@.len() == 0,
    {
        DelphiList { items: Vec::new() }
    }

    /// The number of slots.
    pub fn len(&self) -> (r: usize)
        ensures
            r == self.items@.len(),
    {
        self.items.len()
    }

    /// The record at a slot.
    pub fn get(&self, i: usize) -> (r: &T)
        requires
            i < self.items@.len(),
        ensures
            *r == self.items@[i as int],
    {
        &self.items[i]
    }

    /// Appends one record.
    pub fn push(&mut self, t: T)
        ensures
            final(self).items@ == old(self).items@.push(t),
    {
        self.items.push(t);
    }

    /// Replaces the record at a slot.
    pub fn set(&mut self, i: usize, t: T)
        requires
            i < old(self).items@.len(),
        ensures
            final(self).items@ == old(self).items@.update(i as int, t),
    {
        self.items.set(i, t);
    }
}

} // verus!
