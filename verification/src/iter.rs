//! Iterator adapters over the heap: thin plumbing that exposes the
//! container's elements, with the iteration-order guarantees each form
//! documents. Each adapter offers an inherent `next` (and, where the
//! original order is defined from both ends, `next_back`) together with an
//! exact `size_hint`.

use vstd::prelude::*;

use crate::comparator::Comparator;
use crate::heap::BinaryHeap;

verus! {

/// An iterator over borrowed elements of a heap, in the heap's internal
/// (arbitrary) order.
#[derive(Clone, Copy)]
pub struct Iter<'a, T> {
    elems: &'a [T],
    front: usize,
    back: usize,
}

impl<'a, T> Iter<'a, T> {
    /// The elements not yet yielded, front to back.
    pub closed spec fn remaining(&self) -> Seq<T> {
        self.elems@.subrange(self.front as int, self.back as int)
    }

    /// The yielding window lies inside the borrowed storage.
    pub closed spec fn wf(&self) -> bool {
        self.front <= self.back <= self.elems@.len()
    }

    /// Creates an iterator over the whole of the given storage.
    pub(crate) fn over_slice(elems: &'a [T]) -> (it: Self)
        ensures
            it.wf(),
            it.remaining() == elems@,
    {
        let it = Iter { elems, front: 0, back: elems.len() };
        proof {
            assert(it.remaining() =~= elems@);
        }
        it
    }

    /// Yields a reference to the next element from the front, or nothing
    /// when the iterator is exhausted.
    pub fn next(&mut self) -> (r: Option<&'a T>)
        requires
            old(self).wf(),
        ensures
            final(self).wf(),
            old(self).remaining().len() == 0 ==> (r is None && final(self).remaining()
                == old(self).remaining()),
            old(self).remaining().len() > 0 ==> (r matches Some(e) && *e == old(
                self,
            ).remaining()[0] && final(self).remaining() == old(self).remaining().drop_first()),
    {
        if self.front < self.back {
            let e = &self.elems[self.front];
            self.front = self.front + 1;
            proof {
                assert(final(self).remaining() =~= old(self).remaining().drop_first());
            }
            Some(e)
        } else {
            None
        }
    }

    /// Yields a reference to the next element from the back, or nothing
    /// when the iterator is exhausted.
    pub fn next_back(&mut self) -> (r: Option<&'a T>)
        requires
            old(self).wf(),
        ensures
            final(self).wf(),
            old(self).remaining().len() == 0 ==> (r is None && final(self).remaining()
                == old(self).remaining()),
            old(self).remaining().len() > 0 ==> (r matches Some(e) && *e == old(
                self,
            ).remaining().last() && final(self).remaining() == old(self).remaining().drop_last()),
    {
        if self.front < self.back {
            self.back = self.back - 1;
            let e = &self.elems[self.back];
            proof {
                assert(final(self).remaining() =~= old(self).remaining().drop_last());
            }
            Some(e)
        } else {
            None
        }
    }

    /// The exact number of elements still to be yielded, as a lower and
    /// upper bound.
    pub fn size_hint(&self) -> (r: (usize, Option<usize>))
        requires
            self.wf(),
        ensures
            r.0 == self.remaining().len(),
            r.1 == Some(r.0),
    {
        let n = self.back - self.front;
        (n, Some(n))
    }
}

/// An owning iterator over the elements of a heap, in the heap's internal
/// (arbitrary) order.
pub struct IntoIter<T> {
    data: Vec<T>,
}

impl<T> View for IntoIter<T> {
    type V = Seq<T>;

    closed spec fn view(&self) -> Seq<T> {
        self.data@
    }
}

impl<T> IntoIter<T> {
    /// Creates an iterator over the elements of the given storage, front
    /// to back.
    pub(crate) fn over_vec(data: Vec<T>) -> (it: Self)
        ensures
            it@ == data@,
    {
        IntoIter { data }
    }

    /// Yields the next element from the front, or nothing when the
    /// iterator is exhausted.
    pub fn next(&mut self) -> (r: Option<T>)
        ensures
            old(self)@.len() == 0 ==> (r is None && final(self)@ == old(self)@),
            old(self)@.len() > 0 ==> (r == Some(old(self)@[0]) && final(self)@ == old(
                self,
            )@.drop_first()),
    {
        if self.data.len() == 0 {
            None
        } else {
            let e = self.data.remove(0);
            proof {
                assert(final(self)@ =~= old(self)@.drop_first());
            }
            Some(e)
        }
    }

    /// Yields the next element from the back, or nothing when the
    /// iterator is exhausted.
    pub fn next_back(&mut self) -> (r: Option<T>)
        ensures
            old(self)@.len() == 0 ==> (r is None && final(self)@ == old(self)@),
            old(self)@.len() > 0 ==> (r == Some(old(self)@.last()) && final(self)@ == old(
                self,
            )@.drop_last()),
    {
        self.data.pop()
    }

    /// The exact number of elements still to be yielded, as a lower and
    /// upper bound.
    pub fn size_hint(&self) -> (r: (usize, Option<usize>))
        ensures
            r.0 == self@.len(),
            r.1 == Some(r.0),
    {
        let n = self.data.len();
        (n, Some(n))
    }
}

/// An owning iterator that yields the elements of a heap in descending
/// order under its comparator, by repeatedly popping. It consumes the
/// heap; its element-count hint is always exact.
pub struct IntoIterSorted<T, C: Comparator<T>> {
    inner: BinaryHeap<T, C>,
}

impl<T, C: Comparator<T>> View for IntoIterSorted<T, C> {
    type V = Seq<T>;

    closed spec fn view(&self) -> Seq<T> {
        self.inner@
    }
}

impl<T, C: Comparator<T>> IntoIterSorted<T, C> {
    /// The comparator of the heap being drained.
    pub closed spec fn comparator(&self) -> C {
        self.inner.comparator()
    }

    /// The heap being drained is well-formed.
    pub closed spec fn wf(&self) -> bool {
        self.inner.wf()
    }

    /// Creates the iterator around the heap it drains.
    pub(crate) fn over_heap(inner: BinaryHeap<T, C>) -> (it: Self)
        ensures
            it@ == inner@,
            it.comparator() == inner.comparator(),
            inner.wf() ==> it.wf(),
    {
        IntoIterSorted { inner }
    }

    /// Yields the greatest remaining element under the comparator, or
    /// nothing when the heap is exhausted.
    pub fn next(&mut self) -> (r: Option<T>)
        requires
            old(self).wf(),
        ensures
            final(self).wf(),
            final(self).comparator() == old(self).comparator(),
            old(self)@.len() == 0 ==> (r is None && final(self)@ == old(self)@),
            old(self)@.len() > 0 ==> (r == Some(old(self)@[0]) && final(self)@.len() == old(
                self,
            )@.len() - 1 && final(self)@.to_multiset() == old(self)@.to_multiset().remove(
                old(self)@[0],
            ) && forall|i: int|
                0 <= i < old(self)@.len() ==> old(self).comparator().le(
                    old(self)@[i],
                    old(self)@[0],
                )),
    {
        self.inner.pop()
    }

    /// The exact number of elements still to be yielded, as a lower and
    /// upper bound.
    pub fn size_hint(&self) -> (r: (usize, Option<usize>))
        ensures
            r.0 == self@.len(),
            r.1 == Some(r.0),
    {
        let n = self.inner.len();
        (n, Some(n))
    }
}

/// An owning iterator over elements removed from a heap by `drain`: the
/// heap is empty as soon as the `Drain` exists, and the elements come out
/// in the heap's internal (arbitrary) order.
pub struct Drain<T> {
    data: Vec<T>,
}

impl<T> View for Drain<T> {
    type V = Seq<T>;

    closed spec fn view(&self) -> Seq<T> {
        self.data@
    }
}

impl<T> Drain<T> {
    /// Creates an iterator over the removed elements, front to back.
    pub(crate) fn over_vec(data: Vec<T>) -> (it: Self)
        ensures
            it@ == data@,
    {
        Drain { data }
    }

    /// Yields the next removed element from the front, or nothing when
    /// the iterator is exhausted.
    pub fn next(&mut self) -> (r: Option<T>)
        ensures
            old(self)@.len() == 0 ==> (r is None && final(self)@ == old(self)@),
            old(self)@.len() > 0 ==> (r == Some(old(self)@[0]) && final(self)@ == old(
                self,
            )@.drop_first()),
    {
        if self.data.len() == 0 {
            None
        } else {
            let e = self.data.remove(0);
            proof {
                assert(final(self)@ =~= old(self)@.drop_first());
            }
            Some(e)
        }
    }

    /// Yields the next removed element from the back, or nothing when the
    /// iterator is exhausted.
    pub fn next_back(&mut self) -> (r: Option<T>)
        ensures
            old(self)@.len() == 0 ==> (r is None && final(self)@ == old(self)@),
            old(self)@.len() > 0 ==> (r == Some(old(self)@.last()) && final(self)@ == old(
                self,
            )@.drop_last()),
    {
        self.data.pop()
    }

    /// The exact number of elements still to be yielded, as a lower and
    /// upper bound.
    pub fn size_hint(&self) -> (r: (usize, Option<usize>))
        ensures
            r.0 == self@.len(),
            r.1 == Some(r.0),
    {
        let n = self.data.len();
        (n, Some(n))
    }
}

} // verus!
