//! The hole primitive used by the sift algorithms.
//!
//! A [`Hole`] marks one slot of a sequence as the current position of the
//! element being sifted; [`Hole::move_to`] exchanges that slot with another
//! one, so the moving element travels through the sequence while every slot
//! stays populated. The heap engine takes its storage out of the heap, runs
//! a sift through a `Hole`, and puts the storage back with
//! [`Hole::into_data`], so the sequence is fully restored on every exit
//! path of a sift.

use vstd::prelude::*;

use crate::vecops::vec_swap_idx;

verus! {

/// A slot of a sequence singled out as the current position of the element
/// being sifted.
pub struct Hole<T> {
    data: Vec<T>,
    pos: usize,
}

impl<T> View for Hole<T> {
    type V = Seq<T>;

    closed spec fn view(&self) -> Seq<T> {
        self.data@
    }
}

impl<T> Hole<T> {
    /// The index of the slot the moving element currently occupies.
    pub closed spec fn spec_pos(&self) -> int {
        self.pos as int
    }

    /// The hole's position is inside the sequence.
    pub open spec fn wf(&self) -> bool {
        0 <= self.spec_pos() < self@.len()
    }

    /// Creates a new `Hole` at index `pos`.
    pub fn new(data: Vec<T>, pos: usize) -> (h: Hole<T>)
        requires
            pos < data@.len(),
        ensures
            h@ == data@,
            h.spec_pos() == pos,
            h.wf(),
    {
        Hole { data, pos }
    }

    /// Returns the index of the slot the moving element currently occupies.
    pub fn pos(&self) -> (p: usize)
        ensures
            p as int == self.spec_pos(),
    {
        self.pos
    }

    /// Returns a reference to the moving element.
    pub fn element(&self) -> (e: &T)
        requires
            self.wf(),
        ensures
            *e == self@[self.spec_pos()],
    {
        &self.data[self.pos]
    }

    /// Returns a reference to the element at `index`, which must differ
    /// from the hole's own position.
    pub fn get(&self, index: usize) -> (e: &T)
        requires
            index < self@.len(),
            index as int != self.spec_pos(),
        ensures
            *e == self@[index as int],
    {
        &self.data[index]
    }

    /// Moves the hole to `index`: the moving element and the element at
    /// `index` exchange slots.
    pub fn move_to(&mut self, index: usize)
        requires
            old(self).wf(),
            index < old(self)@.len(),
            index as int != old(self).spec_pos(),
        ensures
            final(self).wf(),
            final(self).spec_pos() == index,
            final(self)@ == old(self)@.update(old(self).spec_pos(), old(self)@[index as int])
                .update(index as int, old(self)@[old(self).spec_pos()]),
            final(self)@.len() == old(self)@.len(),
    {
        let p = self.pos;
        vec_swap_idx(&mut self.data, p, index);
        self.pos = index;
    }

    /// Releases the hole, handing the fully populated sequence back.
    pub fn into_data(self) -> (data: Vec<T>)
        ensures
            data@ == self@,
    {
        self.data
    }
}

} // verus!
