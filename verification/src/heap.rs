//! The heap engine: a binary heap over a resizable sequence of elements,
//! ordered by one [`Comparator`] instance bound to the heap for its whole
//! lifetime.
//!
//! The element at index 0 of a well-formed non-empty heap is always the
//! maximum under the comparator. Every mutating operation funnels through
//! the two sift primitives, which move an element through the sequence by a
//! [`Hole`].

use vstd::prelude::*;

use crate::comparator::Comparator;
use crate::comparator::FnComparator;
use crate::comparator::KeyComparator;
use crate::comparator::KeyFn;
use crate::comparator::MaxComparator;
use crate::comparator::MinComparator;
use crate::hole::Hole;
use crate::iter::Drain;
use crate::iter::IntoIter;
use crate::iter::IntoIterSorted;
use crate::iter::Iter;
use crate::vecops::vec_capacity;
use crate::vecops::vec_reserve_exact;
use crate::vecops::vec_shrink_to_fit;
use crate::vecops::vec_swap_idx;

verus! {

use core::cmp::Ordering;
use vstd::multiset::Multiset;
use vstd::pervasive::VecAdditionalExecFns;

/// The index of the parent of the node at index `i` (meaningful for
/// `i >= 1`).
pub open spec fn parent_index(i: int) -> int {
    (i - 1) / 2
}

/// The heap-order property on the first `end` elements of `s`: every node
/// in the segment is not greater than its parent, under `cmp`.
pub open spec fn heap_seg<T, C: Comparator<T>>(cmp: C, s: Seq<T>, end: int) -> bool {
    forall|i: int| #![trigger s[i]] 1 <= i < end ==> cmp.le(s[i], s[parent_index(i)])
}

/// The heap-order property on the whole of `s`: for every index with a
/// parent, the element is not greater than its parent, under `cmp`.
pub open spec fn heap_ordered<T, C: Comparator<T>>(cmp: C, s: Seq<T>) -> bool {
    heap_seg(cmp, s, s.len() as int)
}

/// Every parent link in the segment holds except possibly the one out of
/// position `p` (the link from `p` up to its own parent).
spec fn almost_heap_up<T, C: Comparator<T>>(cmp: C, s: Seq<T>, end: int, p: int) -> bool {
    forall|i: int| #![trigger s[i]] 1 <= i < end && i != p ==> cmp.le(s[i], s[parent_index(i)])
}

/// While an element is being sifted through position `h`, the children of
/// `h` are bounded by `h`'s parent (vacuous while the hole is still at the
/// top position `n` of the sift).
spec fn kids_bound_above<T, C: Comparator<T>>(cmp: C, s: Seq<T>, end: int, n: int, h: int) -> bool {
    h > n ==> forall|c: int| #![trigger s[c]]
        1 <= c < end && parent_index(c) == h ==> cmp.le(s[c], s[parent_index(h)])
}

/// Every parent link in the segment whose parent index is at least `n`
/// holds.
spec fn seg_links_from<T, C: Comparator<T>>(cmp: C, s: Seq<T>, end: int, n: int) -> bool {
    forall|i: int| #![trigger s[i]]
        1 <= i < end && parent_index(i) >= n ==> cmp.le(s[i], s[parent_index(i)])
}

/// Every parent link in the segment holds except possibly those touching
/// position `h` (the link out of `h` and the links into `h`).
spec fn seg_links_detached<T, C: Comparator<T>>(cmp: C, s: Seq<T>, end: int, h: int) -> bool {
    forall|i: int| #![trigger s[i]]
        1 <= i < end && i != h && parent_index(i) != h ==> cmp.le(s[i], s[parent_index(i)])
}

/// Every parent link in the segment whose parent index is at least `n`
/// holds, except possibly the links into position `h`.
spec fn seg_links_from_except<T, C: Comparator<T>>(
    cmp: C,
    s: Seq<T>,
    end: int,
    n: int,
    h: int,
) -> bool {
    forall|i: int| #![trigger s[i]]
        1 <= i < end && parent_index(i) >= n && parent_index(i) != h ==> cmp.le(
            s[i],
            s[parent_index(i)],
        )
}

/// The heap-order property everywhere except possibly at the root: the
/// links into index 0 may be broken, as after the root's value was
/// replaced through a scoped mutable peek.
pub open spec fn below_root_ordered<T, C: Comparator<T>>(cmp: C, s: Seq<T>) -> bool {
    forall|i: int| #![trigger s[i]]
        1 <= i < s.len() && parent_index(i) != 0 ==> cmp.le(s[i], s[parent_index(i)])
}

/// The element of `s` at index `j`. Permutation statements quantify over
/// this form so that the solver can recognize candidate witnesses.
spec fn elem_at<T>(s: Seq<T>, j: int) -> T {
    s[j]
}

/// True when `x` stands at some index in `[lo, hi)` of `s`.
spec fn occurs_within<T>(s: Seq<T>, lo: int, hi: int, x: T) -> bool {
    exists|j: int| #![trigger elem_at(s, j)] lo <= j < hi && x == elem_at(s, j)
}

/// A priority queue implemented with a binary heap, ordered by the
/// comparator `C`.
#[derive(Clone)]
pub struct BinaryHeap<T, C: Comparator<T>> {
    data: Vec<T>,
    cmp: C,
}

impl<T, C: Comparator<T>> View for BinaryHeap<T, C> {
    type V = Seq<T>;

    closed spec fn view(&self) -> Seq<T> {
        self.data@
    }
}

impl<T, C: Comparator<T>> BinaryHeap<T, C> {
    /// The comparator instance bound to this heap.
    pub closed spec fn comparator(&self) -> C {
        self.cmp
    }

    /// Well-formedness: the stored sequence satisfies the heap-order
    /// property under the heap's comparator.
    pub open spec fn wf(&self) -> bool {
        heap_ordered(self.comparator(), self@)
    }

    /// Creates a heap directly from a vector and a comparator.
    ///
    /// When `rebuild` is true the sequence is fully reordered into heap
    /// order. When it is false the sequence is taken as it stands, and the
    /// result is well-formed only if the sequence already satisfied the
    /// heap-order property; otherwise the ordering guarantees of the other
    /// operations do not apply to the result.
    pub fn from_vec_cmp_raw(vec: Vec<T>, cmp: C, rebuild: bool) -> (r: Self)
        ensures
            r.comparator() == cmp,
            r@.to_multiset() == vec@.to_multiset(),
            r@.len() == vec@.len(),
            rebuild ==> r.wf(),
            !rebuild ==> r@ == vec@,
    {
        let mut heap = BinaryHeap { data: vec, cmp };
        if rebuild && heap.data.len() != 0 {
            heap.rebuild();
        }
        heap
    }

    /// Creates a heap from a vector and a comparator, reordering the
    /// sequence into heap order.
    pub fn from_vec_cmp(vec: Vec<T>, cmp: C) -> (r: Self)
        ensures
            r.comparator() == cmp,
            r@.to_multiset() == vec@.to_multiset(),
            r@.len() == vec@.len(),
            r.wf(),
    {
        BinaryHeap::from_vec_cmp_raw(vec, cmp, true)
    }

    /// Returns the number of elements in the heap.
    pub fn len(&self) -> (n: usize)
        ensures
            n == self@.len(),
    {
        self.data.len()
    }

    /// Returns true when the heap holds no elements.
    pub fn is_empty(&self) -> (b: bool)
        ensures
            b == (self@.len() == 0),
    {
        self.data.len() == 0
    }

    /// Returns the top element, or nothing when the heap is empty. On a
    /// well-formed heap the top element is the maximum under the
    /// comparator.
    pub fn peek(&self) -> (r: Option<&T>)
        ensures
            self@.len() == 0 ==> r is None,
            self@.len() > 0 ==> (r matches Some(e) && *e == self@[0]),
            (self.wf() && self@.len() > 0) ==> forall|i: int|
                0 <= i < self@.len() ==> self.comparator().le(self@[i], self@[0]),
    {
        proof {
            if self.wf() && self@.len() > 0 {
                lemma_heap_root_is_max(self.comparator(), self@);
            }
        }
        if self.data.len() == 0 {
            None
        } else {
            Some(&self.data[0])
        }
    }

    /// Pushes an element onto the heap.
    pub fn push(&mut self, item: T)
        requires
            old(self).wf(),
        ensures
            final(self).wf(),
            final(self).comparator() == old(self).comparator(),
            final(self)@.len() == old(self)@.len() + 1,
            final(self)@.to_multiset() == old(self)@.to_multiset().insert(item),
    {
        let old_len = self.data.len();
        self.data.push(item);
        proof {
            broadcast use vstd::seq_lib::group_to_multiset_ensures;
        }
        self.sift_up(0, old_len);
    }

    /// Consumes the heap and returns the underlying vector, in the
    /// heap's internal (arbitrary) order.
    pub fn into_vec(self) -> (r: Vec<T>)
        ensures
            r@ == self@,
    {
        self.data
    }

    /// Consumes the heap and returns a vector holding the same elements
    /// in ascending order under the heap's comparator: an in-place
    /// heapsort of the underlying storage.
    pub fn into_sorted_vec(self) -> (r: Vec<T>)
        requires
            self.wf(),
        ensures
            r@.to_multiset() == self@.to_multiset(),
            r@.len() == self@.len(),
            forall|i: int, j: int|
                0 <= i <= j < r@.len() ==> self.comparator().le(r@[i], r@[j]),
    {
        let mut this = self;
        let ghost c = this.cmp;
        let ghost s0 = this@;
        let mut end = this.data.len();
        while end > 1
            invariant
                this.cmp == c,
                end <= this@.len(),
                this@.len() == 0 ==> end == 0,
                this@.len() > 0 ==> end >= 1,
                this@.len() == s0.len(),
                this@.to_multiset() == s0.to_multiset(),
                heap_seg(c, this@, end as int),
                forall|i: int, j: int|
                    0 <= i < end as int && end as int <= j < this@.len() ==> c.le(
                        this@[i],
                        this@[j],
                    ),
                forall|i: int, j: int|
                    end as int <= i <= j < this@.len() ==> c.le(this@[i], this@[j]),
            decreases end,
        {
            end = end - 1;
            let ghost pre = this@;
            proof {
                lemma_heap_root_is_max_seg(c, pre, end as int + 1);
            }
            vec_swap_idx(&mut this.data, 0, end);
            let ghost mid = this@;
            proof {
                lemma_swap_to_multiset(pre, 0, end as int);
                // the swap touched only positions 0 and end, so the links of the
                // shrunk segment away from the root are intact
                assert forall|i: int| #![trigger mid[i]]
                    1 <= i < end as int && parent_index(i) >= 0 && parent_index(i) != 0 implies c.le(
                    mid[i],
                    mid[parent_index(i)],
                ) by {
                    assert(mid[i] == pre[i]);
                    assert(mid[parent_index(i)] == pre[parent_index(i)]);
                }
                // every element of the shrunk active segment is below every
                // element of the grown sorted tail
                assert forall|i: int, j: int|
                    0 <= i < end as int && end as int <= j < mid.len() implies c.le(
                    mid[i],
                    mid[j],
                ) by {
                    if j == end as int {
                        // the new tail element is the old root, the segment maximum
                        assert(mid[j] == pre[0]);
                        if i == 0 {
                            assert(mid[i] == pre[end as int]);
                        } else {
                            assert(mid[i] == pre[i]);
                        }
                    } else {
                        assert(mid[j] == pre[j]);
                        if i == 0 {
                            assert(mid[i] == pre[end as int]);
                            assert(c.le(pre[end as int], pre[j]));
                        } else {
                            assert(mid[i] == pre[i]);
                        }
                    }
                }
            }
            this.sift_down_range(0, end);
            proof {
                assert forall|i: int, j: int|
                    0 <= i < end as int && end as int <= j < this@.len() implies c.le(
                    this@[i],
                    this@[j],
                ) by {
                    assert(elem_at(this@, i) == this@[i]);
                    assert(occurs_within(mid, 0, end as int, elem_at(this@, i)));
                    let k = choose|k: int|
                        #![trigger elem_at(mid, k)]
                        0 <= k < end as int && elem_at(this@, i) == elem_at(mid, k);
                    assert(this@[j] == mid[j]);
                    assert(c.le(mid[k], mid[j]));
                }
                assert forall|i: int| #![trigger this@[i]] 1 <= i < end as int implies c.le(
                    this@[i],
                    this@[parent_index(i)],
                ) by {
                    assert(parent_index(i) >= 0);
                }
            }
        }
        proof {
            assert forall|i: int, j: int| 0 <= i <= j < this@.len() implies c.le(
                this@[i],
                this@[j],
            ) by {
                if i == j {
                    c.lemma_le_total(this@[i], this@[i]);
                }
            }
        }
        this.data
    }

    /// Removes the top element and returns it, or nothing when the heap
    /// is empty. On a well-formed heap the returned element is the
    /// maximum of the held elements under the comparator.
    pub fn pop(&mut self) -> (r: Option<T>)
        requires
            old(self).wf(),
        ensures
            final(self).wf(),
            final(self).comparator() == old(self).comparator(),
            old(self)@.len() == 0 ==> (r is None && final(self)@ == old(self)@),
            old(self)@.len() > 0 ==> (r == Some(old(self)@[0]) && final(self)@.len() == old(
                self,
            )@.len() - 1 && final(self)@.to_multiset() == old(self)@.to_multiset().remove(
                old(self)@[0],
            ) && forall|i: int|
                0 <= i < old(self)@.len() ==> old(self).comparator().le(
                    old(self)@[i],
                    old(self)@[0],
                )),
    {
        proof {
            if self@.len() > 0 {
                lemma_heap_root_is_max(self.comparator(), self@);
            }
        }
        self.pop_loose()
    }

    /// Removes the top element of a heap whose order may be broken at the
    /// root alone: the shared removal path of `pop` and of the scoped
    /// mutable peek, which may have replaced the root's value.
    fn pop_loose(&mut self) -> (r: Option<T>)
        requires
            below_root_ordered(old(self).comparator(), old(self)@),
        ensures
            final(self).wf(),
            final(self).comparator() == old(self).comparator(),
            old(self)@.len() == 0 ==> (r is None && final(self)@ == old(self)@),
            old(self)@.len() > 0 ==> (r == Some(old(self)@[0]) && final(self)@.len() == old(
                self,
            )@.len() - 1 && final(self)@.to_multiset() == old(self)@.to_multiset().remove(
                old(self)@[0],
            )),
    {
        let ghost c = self.cmp;
        let ghost s_orig = self@;
        let len = self.data.len();
        if len == 0 {
            return None;
        }
        vec_swap_idx(&mut self.data, 0, len - 1);
        let ghost swapped = self@;
        let item = self.data.pop().unwrap();
        proof {
            lemma_swap_to_multiset(s_orig, 0, len as int - 1);
            assert(swapped.remove(len as int - 1) =~= swapped.subrange(0, len as int - 1));
            broadcast use vstd::seq_lib::to_multiset_remove;
            assert(self@.to_multiset() == swapped.to_multiset().remove(swapped[len as int - 1]));
        }
        if self.data.len() != 0 {
            proof {
                assert forall|i: int| #![trigger self@[i]]
                    1 <= i < self@.len() && parent_index(i) >= 0 && parent_index(i) != 0 implies c.le(
                    self@[i],
                    self@[parent_index(i)],
                ) by {
                    assert(self@[i] == s_orig[i]);
                    assert(self@[parent_index(i)] == s_orig[parent_index(i)]);
                }
            }
            self.sift_down_to_bottom(0);
        }
        Some(item)
    }

    /// Moves the element at `pos` all the way down to a leaf along the
    /// path of greater children, then sifts it back up to its place. This
    /// touches fewer elements on average than a comparison-guided descent
    /// when the displaced element belongs near the bottom.
    fn sift_down_to_bottom(&mut self, pos: usize)
        requires
            pos == 0,
            old(self)@.len() > 0,
            seg_links_from_except(
                old(self).comparator(),
                old(self)@,
                old(self)@.len() as int,
                0,
                0,
            ),
        ensures
            final(self).comparator() == old(self).comparator(),
            final(self)@.len() == old(self)@.len(),
            final(self)@.to_multiset() == old(self)@.to_multiset(),
            final(self).wf(),
    {
        let ghost c = self.cmp;
        let mut data: Vec<T> = Vec::new();
        core::mem::swap(&mut data, &mut self.data);
        let ghost s0 = data@;
        let len = data.len();
        let mut hole = Hole::new(data, pos);
        loop
            invariant
                self.cmp == c,
                hole.wf(),
                hole@.len() == s0.len(),
                hole@.len() == len,
                hole@.to_multiset() == s0.to_multiset(),
                hole.spec_pos() < len as int,
                seg_links_detached(c, hole@, len as int, hole.spec_pos()),
                kids_bound_above(c, hole@, len as int, 0, hole.spec_pos()),
            ensures
                self.cmp == c,
                hole.wf(),
                hole@.len() == s0.len(),
                hole@.len() == len,
                hole@.to_multiset() == s0.to_multiset(),
                hole.spec_pos() < len as int,
                2 * hole.spec_pos() + 1 >= len as int,
                seg_links_detached(c, hole@, len as int, hole.spec_pos()),
                kids_bound_above(c, hole@, len as int, 0, hole.spec_pos()),
            decreases len as int - hole.spec_pos(),
        {
            let h = hole.pos();
            if h >= len / 2 {
                // no child of `h` exists: the element reached a leaf
                proof {
                    assert(2 * (h as int) + 1 >= len as int);
                }
                break;
            }
            let mut child = 2 * h + 1;
            let right = child + 1;
            if right < len {
                let o = self.cmp.compare(hole.get(child), hole.get(right));
                match o {
                    // the greater child is chosen; the left is preferred on exact ties
                    Ordering::Greater | Ordering::Equal => {},
                    Ordering::Less => {
                        child = right;
                    },
                }
            }
            proof {
                lemma_sift_to_bottom_step(c, hole@, len as int, h as int, child as int);
            }
            let ghost pre = hole@;
            hole.move_to(child);
            proof {
                lemma_swap_to_multiset(pre, h as int, child as int);
            }
        }
        let p = hole.pos();
        let mut data = hole.into_data();
        core::mem::swap(&mut data, &mut self.data);
        proof {
            // at a leaf no link enters `p`, so only the link out of `p` can be
            // missing, which is what the ascent repairs
            assert forall|i: int| #![trigger self@[i]]
                1 <= i < self@.len() && i != p as int implies c.le(
                self@[i],
                self@[parent_index(i)],
            ) by {
                assert(parent_index(i) != p as int);
            }
        }
        self.sift_up(0, p);
    }

    /// Returns an iterator over borrowed elements, in the heap's internal
    /// (arbitrary) order.
    pub fn iter<'a>(&'a self) -> (it: Iter<'a, T>)
        ensures
            it.wf(),
            it.remaining() == self@,
    {
        Iter::over_slice(self.data.as_slice())
    }

    /// Consumes the heap and returns an iterator that yields owned
    /// elements, in the heap's internal (arbitrary) order.
    pub fn into_iter(self) -> (it: IntoIter<T>)
        ensures
            it@ == self@,
    {
        IntoIter::over_vec(self.data)
    }

    /// Consumes the heap and returns an iterator that yields owned
    /// elements in descending order under the heap's comparator.
    pub fn into_iter_sorted(self) -> (it: IntoIterSorted<T, C>)
        requires
            self.wf(),
        ensures
            it.wf(),
            it@ == self@,
            it.comparator() == self.comparator(),
    {
        IntoIterSorted::over_heap(self)
    }

    /// Removes every element at once, returning an iterator over the
    /// removed elements in the heap's internal (arbitrary) order; the
    /// heap itself is empty from this point on.
    pub fn drain(&mut self) -> (d: Drain<T>)
        ensures
            final(self)@ == Seq::<T>::empty(),
            final(self).wf(),
            final(self).comparator() == old(self).comparator(),
            d@ == old(self)@,
    {
        let mut data: Vec<T> = Vec::new();
        core::mem::swap(&mut data, &mut self.data);
        Drain::over_vec(data)
    }

    /// Drops every element from the heap.
    pub fn clear(&mut self)
        ensures
            final(self)@ == Seq::<T>::empty(),
            final(self).wf(),
            final(self).comparator() == old(self).comparator(),
    {
        self.drain();
    }

    /// Consumes the heap and grants mutable access to its top element
    /// through a [`PeekMut`] guard; an empty heap comes back unchanged.
    pub fn peek_mut(self) -> (r: Result<PeekMut<T, C>, Self>)
        requires
            self.wf(),
        ensures
            self@.len() == 0 ==> (r matches Err(h) && h == self),
            self@.len() > 0 ==> (r matches Ok(g) && g@ == self@ && g.comparator()
                == self.comparator() && g.wf()),
    {
        if self.data.len() == 0 {
            Err(self)
        } else {
            Ok(PeekMut { heap: self })
        }
    }

    /// Returns the number of elements the heap can hold without
    /// reallocating.
    pub fn capacity(&self) -> (r: usize)
        ensures
            self@.len() <= r,
    {
        vec_capacity(&self.data)
    }

    /// Reserves capacity for at least `additional` more elements. Only a
    /// capacity hint: the held elements and their order are untouched.
    pub fn reserve(&mut self, additional: usize)
        ensures
            final(self)@ == old(self)@,
            final(self).comparator() == old(self).comparator(),
    {
        self.data.reserve(additional);
    }

    /// Reserves the minimum capacity for exactly `additional` more
    /// elements. Only a capacity hint: the held elements and their order
    /// are untouched.
    pub fn reserve_exact(&mut self, additional: usize)
        ensures
            final(self)@ == old(self)@,
            final(self).comparator() == old(self).comparator(),
    {
        vec_reserve_exact(&mut self.data, additional);
    }

    /// Discards as much spare capacity as possible. Only a capacity hint:
    /// the held elements and their order are untouched.
    pub fn shrink_to_fit(&mut self)
        ensures
            final(self)@ == old(self)@,
            final(self).comparator() == old(self).comparator(),
    {
        vec_shrink_to_fit(&mut self.data);
    }

    /// Moves every element of `other` into `self`, leaving `other` empty.
    ///
    /// The two heaps first exchange roles when `other` is the larger, so
    /// the merge always inserts the smaller side into the larger side's
    /// storage; a cost estimate then picks between one full rebuild and
    /// repeated insertion. Both strategies yield the same well-formed
    /// result: the union of the two heaps' elements.
    pub fn append(&mut self, other: &mut Self)
        requires
            old(self).wf(),
            old(other).wf(),
        ensures
            final(self).wf(),
            final(other).wf(),
            final(other)@ == Seq::<T>::empty(),
            final(self)@.len() == old(self)@.len() + old(other)@.len(),
            final(self)@.to_multiset() == old(self)@.to_multiset().add(old(other)@.to_multiset()),
            old(self)@.len() < old(other)@.len() ==> (final(self).comparator() == old(
                other,
            ).comparator() && final(other).comparator() == old(self).comparator()),
            old(self)@.len() >= old(other)@.len() ==> (final(self).comparator() == old(
                self,
            ).comparator() && final(other).comparator() == old(other).comparator()),
    {
        proof {
            broadcast use vstd::multiset::group_multiset_axioms;
        }
        if self.data.len() < other.data.len() {
            core::mem::swap(self, other);
            proof {
                assert(self@.to_multiset().add(other@.to_multiset()) =~= old(
                    self,
                )@.to_multiset().add(old(other)@.to_multiset()));
            }
        }
        let ghost c = self.cmp;
        let ghost co = other.cmp;
        let ghost total = self@.to_multiset().add(other@.to_multiset());
        let ghost total_len = self@.len() + other@.len();
        if other.data.len() == 0 {
            proof {
                broadcast use vstd::seq_lib::group_to_multiset_ensures;
                broadcast use vstd::multiset::lemma_multiset_empty_len;
                assert(other@ =~= Seq::<T>::empty());
                assert(other@.to_multiset() =~= Multiset::<T>::empty());
                assert(self@.to_multiset().add(other@.to_multiset()) =~= self@.to_multiset());
            }
            return ;
        }
        let len1 = self.data.len();
        let len2 = other.data.len();
        if better_to_rebuild(len1, len2) {
            let ghost s1 = self@;
            let ghost s2 = other@;
            self.data.append(&mut other.data);
            proof {
                vstd::seq_lib::lemma_multiset_commutative(s1, s2);
            }
            self.rebuild();
        } else {
            while other.data.len() != 0
                invariant
                    self.cmp == c,
                    other.cmp == co,
                    self.wf(),
                    other.wf(),
                    self@.len() + other@.len() == total_len,
                    self@.to_multiset().add(other@.to_multiset()) == total,
                decreases other@.len(),
            {
                let ghost o_pre = other@;
                let x = other.data.pop().unwrap();
                proof {
                    broadcast use vstd::seq_lib::to_multiset_remove;
                    broadcast use vstd::seq_lib::group_to_multiset_ensures;
                    assert(o_pre.remove(o_pre.len() - 1) =~= o_pre.subrange(0, o_pre.len() - 1));
                    assert(other@.to_multiset() == o_pre.to_multiset().remove(x));
                    assert(o_pre.contains(x));
                    assert(o_pre.to_multiset().count(x) > 0);
                    // dropping the tail of `other` keeps every remaining parent link
                    assert forall|i: int| #![trigger other@[i]] 1 <= i < other@.len() implies other.comparator().le(
                        other@[i],
                        other@[parent_index(i)],
                    ) by {
                        assert(other@[i] == o_pre[i]);
                        assert(other@[parent_index(i)] == o_pre[parent_index(i)]);
                    }
                }
                self.push(x);
                proof {
                    assert(self@.to_multiset().add(other@.to_multiset()) =~= total);
                }
            }
            proof {
                broadcast use vstd::seq_lib::group_to_multiset_ensures;
                broadcast use vstd::multiset::lemma_multiset_empty_len;
                assert(other@ =~= Seq::<T>::empty());
                assert(other@.to_multiset() =~= Multiset::<T>::empty());
                assert(self@.to_multiset() =~= total);
            }
        }
    }

    /// Restores heap order below `pos` within the segment `[0, end)`: the
    /// element at `pos` descends while it is strictly less than the
    /// greater of its children (left preferred on exact ties).
    ///
    /// Positions outside `[pos, end)` are left untouched, and afterwards
    /// every parent link of the segment at or below `pos` holds.
    fn sift_down_range(&mut self, pos: usize, end: usize)
        requires
            pos < end,
            end <= old(self)@.len(),
            seg_links_from_except(
                old(self).comparator(),
                old(self)@,
                end as int,
                pos as int,
                pos as int,
            ),
        ensures
            final(self).comparator() == old(self).comparator(),
            final(self)@.len() == old(self)@.len(),
            final(self)@.to_multiset() == old(self)@.to_multiset(),
            seg_links_from(final(self).comparator(), final(self)@, end as int, pos as int),
            forall|i: int|
                #![trigger final(self)@[i]]
                (0 <= i < pos as int || end as int <= i < old(self)@.len()) ==> final(self)@[i]
                    == old(self)@[i],
            forall|i: int|
                #![trigger elem_at(final(self)@, i)]
                pos as int <= i < end as int ==> occurs_within(
                    old(self)@,
                    pos as int,
                    end as int,
                    elem_at(final(self)@, i),
                ),
    {
        let ghost c = self.cmp;
        let mut data: Vec<T> = Vec::new();
        core::mem::swap(&mut data, &mut self.data);
        let ghost s0 = data@;
        let mut hole = Hole::new(data, pos);
        proof {
            assert forall|i: int|
                #![trigger elem_at(hole@, i)]
                pos as int <= i < end as int implies occurs_within(
                s0,
                pos as int,
                end as int,
                elem_at(hole@, i),
            ) by {
                // the element itself is the witness
                assert(elem_at(hole@, i) == elem_at(s0, i));
            }
        }
        loop
            invariant
                self.cmp == c,
                hole.wf(),
                hole@.len() == s0.len(),
                hole@.to_multiset() == s0.to_multiset(),
                pos as int <= hole.spec_pos() < end as int,
                end <= s0.len(),
                seg_links_from_except(c, hole@, end as int, pos as int, hole.spec_pos()),
                kids_bound_above(c, hole@, end as int, pos as int, hole.spec_pos()),
                forall|i: int|
                    #![trigger hole@[i]]
                    (0 <= i < pos as int || end as int <= i < s0.len()) ==> hole@[i] == s0[i],
                forall|i: int|
                    #![trigger elem_at(hole@, i)]
                    pos as int <= i < end as int ==> occurs_within(
                        s0,
                        pos as int,
                        end as int,
                        elem_at(hole@, i),
                    ),
            ensures
                self.cmp == c,
                hole@.len() == s0.len(),
                hole@.to_multiset() == s0.to_multiset(),
                seg_links_from(c, hole@, end as int, pos as int),
                forall|i: int|
                    #![trigger hole@[i]]
                    (0 <= i < pos as int || end as int <= i < s0.len()) ==> hole@[i] == s0[i],
                forall|i: int|
                    #![trigger elem_at(hole@, i)]
                    pos as int <= i < end as int ==> occurs_within(
                        s0,
                        pos as int,
                        end as int,
                        elem_at(hole@, i),
                    ),
            decreases end as int - hole.spec_pos(),
        {
            let h = hole.pos();
            if h >= end / 2 {
                // no child of `h` lies inside the segment
                proof {
                    assert(2 * (h as int) + 1 >= end as int);
                    lemma_sift_down_leaf(c, hole@, end as int, pos as int, h as int);
                }
                break;
            }
            let mut child = 2 * h + 1;
            let right = child + 1;
            if right < end {
                let o = self.cmp.compare(hole.get(child), hole.get(right));
                match o {
                    // the greater child is chosen; the left is preferred on exact ties
                    Ordering::Greater | Ordering::Equal => {},
                    Ordering::Less => {
                        child = right;
                    },
                }
            }
            let ord = self.cmp.compare(hole.element(), hole.get(child));
            match ord {
                Ordering::Less => {
                    proof {
                        lemma_sift_down_step(
                            c,
                            hole@,
                            end as int,
                            pos as int,
                            h as int,
                            child as int,
                        );
                    }
                    let ghost pre = hole@;
                    hole.move_to(child);
                    proof {
                        lemma_swap_to_multiset(pre, h as int, child as int);
                        assert forall|i: int|
                            #![trigger elem_at(hole@, i)]
                            pos as int <= i < end as int implies occurs_within(
                            s0,
                            pos as int,
                            end as int,
                            elem_at(hole@, i),
                        ) by {
                            if i == h as int {
                                assert(elem_at(hole@, i) == elem_at(pre, child as int));
                            } else if i == child as int {
                                assert(elem_at(hole@, i) == elem_at(pre, h as int));
                            } else {
                                assert(elem_at(hole@, i) == elem_at(pre, i));
                            }
                        }
                    }
                },
                Ordering::Greater | Ordering::Equal => {
                    proof {
                        c.lemma_le_total(hole@[h as int], hole@[child as int]);
                        lemma_sift_down_stop(
                            c,
                            hole@,
                            end as int,
                            pos as int,
                            h as int,
                            child as int,
                        );
                    }
                    break;
                },
            }
        }
        let mut data = hole.into_data();
        core::mem::swap(&mut data, &mut self.data);
    }

    /// Restores heap order below `pos` over the whole sequence.
    fn sift_down(&mut self, pos: usize)
        requires
            pos < old(self)@.len(),
            seg_links_from_except(
                old(self).comparator(),
                old(self)@,
                old(self)@.len() as int,
                pos as int,
                pos as int,
            ),
        ensures
            final(self).comparator() == old(self).comparator(),
            final(self)@.len() == old(self)@.len(),
            final(self)@.to_multiset() == old(self)@.to_multiset(),
            seg_links_from(
                final(self).comparator(),
                final(self)@,
                final(self)@.len() as int,
                pos as int,
            ),
            forall|i: int|
                #![trigger final(self)@[i]]
                0 <= i < pos as int ==> final(self)@[i] == old(self)@[i],
    {
        let len = self.data.len();
        self.sift_down_range(pos, len);
    }

    /// Restores heap order over the whole sequence in one bottom-up pass:
    /// every interior node is sifted down, from the last interior node to
    /// the root.
    fn rebuild(&mut self)
        ensures
            final(self).comparator() == old(self).comparator(),
            final(self)@.len() == old(self)@.len(),
            final(self)@.to_multiset() == old(self)@.to_multiset(),
            final(self).wf(),
    {
        let ghost c = self.cmp;
        let ghost s_init = self@;
        let len = self.data.len();
        let mut n = len / 2;
        proof {
            assert forall|i: int| #![trigger self@[i]]
                1 <= i < len as int && parent_index(i) >= n as int implies c.le(
                self@[i],
                self@[parent_index(i)],
            ) by {
                assert(parent_index(i) < n as int);
            }
        }
        while n > 0
            invariant
                self.cmp == c,
                self@.len() == len,
                self@.to_multiset() == s_init.to_multiset(),
                n <= len,
                seg_links_from(c, self@, len as int, n as int),
            decreases n,
        {
            n = n - 1;
            self.sift_down_range(n, len);
        }
        proof {
            assert(seg_links_from(c, self@, len as int, 0));
            assert forall|i: int| #![trigger self@[i]] 1 <= i < len as int implies c.le(
                self@[i],
                self@[parent_index(i)],
            ) by {
                assert(parent_index(i) >= 0);
            }
        }
    }

    /// Restores heap order after the element at `pos` may have become too
    /// large for its parent: the element ascends while it is strictly
    /// greater than its parent. Returns the element's final position.
    fn sift_up(&mut self, start: usize, pos: usize) -> (r: usize)
        requires
            start == 0,
            pos < old(self)@.len(),
            almost_heap_up(old(self).comparator(), old(self)@, old(self)@.len() as int, pos as int),
            kids_bound_above(
                old(self).comparator(),
                old(self)@,
                old(self)@.len() as int,
                0,
                pos as int,
            ),
        ensures
            final(self).comparator() == old(self).comparator(),
            final(self)@.len() == old(self)@.len(),
            final(self)@.to_multiset() == old(self)@.to_multiset(),
            final(self).wf(),
            r < final(self)@.len(),
            final(self)@[r as int] == old(self)@[pos as int],
    {
        let ghost c = self.cmp;
        let mut data: Vec<T> = Vec::new();
        core::mem::swap(&mut data, &mut self.data);
        let ghost s0 = data@;
        let mut hole = Hole::new(data, pos);
        loop
            invariant
                self.cmp == c,
                hole.wf(),
                hole@.len() == s0.len(),
                hole@.to_multiset() == s0.to_multiset(),
                hole.spec_pos() < hole@.len(),
                hole@[hole.spec_pos()] == s0[pos as int],
                almost_heap_up(c, hole@, hole@.len() as int, hole.spec_pos()),
                kids_bound_above(c, hole@, hole@.len() as int, 0, hole.spec_pos()),
            ensures
                self.cmp == c,
                hole.wf(),
                hole@.len() == s0.len(),
                hole@.to_multiset() == s0.to_multiset(),
                hole@[hole.spec_pos()] == s0[pos as int],
                heap_ordered(c, hole@),
            decreases hole.spec_pos(),
        {
            let p = hole.pos();
            if p == 0 {
                break;
            }
            let parent = (p - 1) / 2;
            let ord = self.cmp.compare(hole.element(), hole.get(parent));
            match ord {
                Ordering::Greater => {
                    proof {
                        lemma_sift_up_step(c, hole@, hole@.len() as int, p as int);
                    }
                    let ghost pre = hole@;
                    hole.move_to(parent);
                    proof {
                        lemma_swap_to_multiset(pre, p as int, parent as int);
                    }
                },
                Ordering::Less | Ordering::Equal => {
                    proof {
                        // a result other than `Greater` means the moving element is
                        // not above its parent, so the one missing link holds
                        c.lemma_le_total(hole@[p as int], hole@[parent as int]);
                        assert(c.le(hole@[p as int], hole@[parent as int]));
                        assert(heap_ordered(c, hole@));
                    }
                    break;
                },
            }
        }
        let r = hole.pos();
        let mut data = hole.into_data();
        core::mem::swap(&mut data, &mut self.data);
        r
    }
}

/// A guard granting exclusive mutable access to the top element of a
/// heap. It owns the heap while it exists: release it with
/// [`PeekMut::finish`], which restores heap order and hands the heap
/// back, or with [`PeekMut::pop`], which removes the (possibly replaced)
/// top element; removal repairs the order by itself, so no extra
/// restoration runs on that path.
pub struct PeekMut<T, C: Comparator<T>> {
    heap: BinaryHeap<T, C>,
}

impl<T, C: Comparator<T>> View for PeekMut<T, C> {
    type V = Seq<T>;

    closed spec fn view(&self) -> Seq<T> {
        self.heap@
    }
}

impl<T, C: Comparator<T>> PeekMut<T, C> {
    /// The comparator instance bound to the guarded heap.
    pub closed spec fn comparator(&self) -> C {
        self.heap.comparator()
    }

    /// The guard holds a non-empty heap whose order can be broken at the
    /// root alone.
    pub open spec fn wf(&self) -> bool {
        self@.len() > 0 && below_root_ordered(self.comparator(), self@)
    }

    /// Returns a reference to the guarded top element.
    pub fn root(&self) -> (r: &T)
        requires
            self@.len() > 0,
        ensures
            *r == self@[0],
    {
        &self.heap.data[0]
    }

    /// Replaces the guarded top element; the heap's order is restored
    /// when the guard is released.
    pub fn set_root(&mut self, v: T)
        requires
            old(self)@.len() > 0,
        ensures
            final(self)@ == old(self)@.update(0, v),
            final(self).comparator() == old(self).comparator(),
            old(self).wf() ==> final(self).wf(),
    {
        self.heap.data.set(0, v);
        proof {
            if old(self).wf() {
                assert forall|i: int| #![trigger self@[i]]
                    1 <= i < self@.len() && parent_index(i) != 0 implies self.comparator().le(
                    self@[i],
                    self@[parent_index(i)],
                ) by {
                    assert(self@[i] == old(self)@[i]);
                    assert(self@[parent_index(i)] == old(self)@[parent_index(i)]);
                }
            }
        }
    }

    /// Removes the guarded top element from the heap and returns it
    /// together with the repaired heap.
    pub fn pop(this: PeekMut<T, C>) -> (r: (T, BinaryHeap<T, C>))
        requires
            this.wf(),
        ensures
            r.0 == this@[0],
            r.1.wf(),
            r.1.comparator() == this.comparator(),
            r.1@.len() == this@.len() - 1,
            r.1@.to_multiset() == this@.to_multiset().remove(this@[0]),
    {
        let mut heap = this.heap;
        let value = heap.pop_loose().unwrap();
        (value, heap)
    }

    /// Releases the guard: restores heap order below the (possibly
    /// replaced) top element and hands the heap back.
    pub fn finish(this: PeekMut<T, C>) -> (r: BinaryHeap<T, C>)
        requires
            this.wf(),
        ensures
            r.wf(),
            r.comparator() == this.comparator(),
            r@.len() == this@.len(),
            r@.to_multiset() == this@.to_multiset(),
    {
        let ghost c = this.heap.cmp;
        let mut heap = this.heap;
        proof {
            assert forall|i: int| #![trigger heap@[i]]
                1 <= i < heap@.len() && parent_index(i) >= 0 && parent_index(i) != 0 implies c.le(
                heap@[i],
                heap@[parent_index(i)],
            ) by {}
        }
        heap.sift_down(0);
        proof {
            assert forall|i: int| #![trigger heap@[i]] 1 <= i < heap@.len() implies c.le(
                heap@[i],
                heap@[parent_index(i)],
            ) by {
                assert(parent_index(i) >= 0);
            }
        }
        heap
    }
}

/// Any two peek results that the contract of `peek` admits for one and
/// the same heap are equal: without mutation in between, repeated peeks
/// return the same value.
pub proof fn lemma_peek_idempotent<T, C: Comparator<T>>(
    h: BinaryHeap<T, C>,
    r1: Option<T>,
    r2: Option<T>,
)
    requires
        h@.len() == 0 ==> r1 is None,
        h@.len() > 0 ==> r1 == Some(h@[0]),
        h@.len() == 0 ==> r2 is None,
        h@.len() > 0 ==> r2 == Some(h@[0]),
    ensures
        r1 == r2,
{
}

/// Round trip: a heap built from a vector holds a permutation of it, and
/// converting the heap back into a vector preserves that permutation.
/// The two hypotheses are the contracts of `from_vec_cmp` (or `from_vec`)
/// and of `into_vec`.
pub proof fn lemma_round_trip_permutation<T>(input: Seq<T>, built: Seq<T>, output: Seq<T>)
    requires
        built.to_multiset() == input.to_multiset(),
        output == built,
    ensures
        output.to_multiset() == input.to_multiset(),
{
}

impl<T, C: Comparator<T> + Default> BinaryHeap<T, C> {
    /// Creates a heap from a vector, with the comparator type's default
    /// instance, reordering the sequence into heap order.
    pub fn from_vec(vec: Vec<T>) -> (r: Self)
        ensures
            r@.to_multiset() == vec@.to_multiset(),
            r@.len() == vec@.len(),
            r.wf(),
    {
        BinaryHeap::from_vec_cmp(vec, C::default())
    }
}

impl<T> BinaryHeap<T, MaxComparator> where MaxComparator: Comparator<T> {
    /// Creates an empty max-heap: elements leave in descending natural
    /// order.
    pub fn new() -> (r: Self)
        ensures
            r@ == Seq::<T>::empty(),
            r.comparator() == (MaxComparator),
            r.wf(),
    {
        BinaryHeap::from_vec_cmp(Vec::new(), MaxComparator)
    }

    /// Creates an empty max-heap with at least the given capacity
    /// preallocated.
    pub fn with_capacity(capacity: usize) -> (r: Self)
        ensures
            r@ == Seq::<T>::empty(),
            r.comparator() == (MaxComparator),
            r.wf(),
    {
        BinaryHeap::from_vec_cmp(Vec::with_capacity(capacity), MaxComparator)
    }
}

impl<T> Default for BinaryHeap<T, MaxComparator> where MaxComparator: Comparator<T> {
    /// Creates an empty max-heap.
    fn default() -> (r: Self)
        ensures
            r@ == Seq::<T>::empty(),
            r.comparator() == (MaxComparator),
            r.wf(),
    {
        BinaryHeap::new()
    }
}

impl<T> BinaryHeap<T, MinComparator> where MinComparator: Comparator<T> {
    /// Creates an empty min-heap: elements leave in ascending natural
    /// order.
    pub fn new_min() -> (r: Self)
        ensures
            r@ == Seq::<T>::empty(),
            r.comparator() == (MinComparator),
            r.wf(),
    {
        BinaryHeap::from_vec_cmp(Vec::new(), MinComparator)
    }

    /// Creates an empty min-heap with at least the given capacity
    /// preallocated.
    pub fn with_capacity_min(capacity: usize) -> (r: Self)
        ensures
            r@ == Seq::<T>::empty(),
            r.comparator() == (MinComparator),
            r.wf(),
    {
        BinaryHeap::from_vec_cmp(Vec::with_capacity(capacity), MinComparator)
    }
}

impl<T, F: Comparator<T>> BinaryHeap<T, FnComparator<F>> {
    /// Creates an empty heap ordered by the given ordering capability.
    pub fn new_by(f: F) -> (r: Self)
        ensures
            r@ == Seq::<T>::empty(),
            r.comparator() == (FnComparator(f)),
            r.wf(),
    {
        BinaryHeap::from_vec_cmp(Vec::new(), FnComparator(f))
    }

    /// Creates an empty heap ordered by the given ordering capability,
    /// with at least the given capacity preallocated.
    pub fn with_capacity_by(capacity: usize, f: F) -> (r: Self)
        ensures
            r@ == Seq::<T>::empty(),
            r.comparator() == (FnComparator(f)),
            r.wf(),
    {
        BinaryHeap::from_vec_cmp(Vec::with_capacity(capacity), FnComparator(f))
    }
}

impl<T, F: KeyFn<T>> BinaryHeap<T, KeyComparator<F>> {
    /// Creates an empty heap ordered by the keys the given extraction
    /// computes.
    pub fn new_by_key(f: F) -> (r: Self)
        ensures
            r@ == Seq::<T>::empty(),
            r.comparator() == (KeyComparator(f)),
            r.wf(),
    {
        BinaryHeap::from_vec_cmp(Vec::new(), KeyComparator(f))
    }

    /// Creates an empty heap ordered by the keys the given extraction
    /// computes, with at least the given capacity preallocated.
    pub fn with_capacity_by_key(capacity: usize, f: F) -> (r: Self)
        ensures
            r@ == Seq::<T>::empty(),
            r.comparator() == (KeyComparator(f)),
            r.wf(),
    {
        BinaryHeap::from_vec_cmp(Vec::with_capacity(capacity), KeyComparator(f))
    }
}

/// After the moving element at `h` is found strictly less than the chosen
/// child `ch`, swapping them preserves the sift-down invariant at the
/// child position.
proof fn lemma_sift_down_step<T, C: Comparator<T>>(
    cmp: C,
    s: Seq<T>,
    end: int,
    n: int,
    h: int,
    ch: int,
)
    requires
        0 <= n <= h < end <= s.len(),
        ch == 2 * h + 1 || ch == 2 * h + 2,
        ch < end,
        ch == 2 * h + 2 ==> cmp.le(s[2 * h + 1], s[ch]),
        (ch == 2 * h + 1 && 2 * h + 2 < end) ==> cmp.le(s[2 * h + 2], s[ch]),
        seg_links_from_except(cmp, s, end, n, h),
        kids_bound_above(cmp, s, end, n, h),
        cmp.le(s[h], s[ch]),
    ensures
        ({
            let s2 = s.update(h, s[ch]).update(ch, s[h]);
            &&& seg_links_from_except(cmp, s2, end, n, ch)
            &&& kids_bound_above(cmp, s2, end, n, ch)
            &&& s2[ch] == s[h]
        }),
{
    let s2 = s.update(h, s[ch]).update(ch, s[h]);
    assert(parent_index(ch) == h);
    assert forall|i: int|
        1 <= i < end && parent_index(i) >= n && parent_index(i) != ch implies cmp.le(
        s2[i],
        s2[parent_index(i)],
    ) by {
        let pi = parent_index(i);
        assert(0 <= pi < i);
        if i == ch {
            // the moving element now sits below the child value that moved up
            assert(s2[ch] == s[h] && s2[h] == s[ch]);
        } else if pi == h {
            // the sibling of the chosen child is below it by the choice of child
            assert(i == 2 * h + 1 || i == 2 * h + 2);
            assert(i != ch);
            assert(cmp.le(s[i], s[ch]));
        } else if i == h {
            // the child value that moved up is below h's old parent
            assert(cmp.le(s[ch], s[parent_index(h)]));
        } else {
            assert(s2[i] == s[i] && s2[pi] == s[pi]);
            assert(cmp.le(s[i], s[pi]));
        }
    }
    assert forall|c: int| 1 <= c < end && parent_index(c) == ch implies cmp.le(
        s2[c],
        s2[parent_index(ch)],
    ) by {
        assert(c != h && c != ch);
        assert(s2[c] == s[c]);
        assert(cmp.le(s[c], s[ch]));
    }
}

/// The floor of the base-two logarithm of `n` (zero for `n < 2`).
spec fn log2_floor(n: int) -> int
    decreases n,
{
    if n < 2 {
        0
    } else {
        1 + log2_floor(n / 2)
    }
}

/// Computes the floor of the base-two logarithm by repeated halving.
fn log2_fast(x: usize) -> (r: usize)
    requires
        x >= 1,
    ensures
        r as int == log2_floor(x as int),
        r < 64,
{
    let mut v = x;
    let mut r: usize = 0;
    proof {
        vstd::arithmetic::power2::lemma2_to64();
    }
    while v >= 2
        invariant
            1 <= v <= x,
            log2_floor(x as int) == r + log2_floor(v as int),
            (v as int) * vstd::arithmetic::power2::pow2(r as nat) <= x as int,
            r < 64,
        decreases v,
    {
        proof {
            broadcast use vstd::arithmetic::power2::lemma_pow2_unfold;
            broadcast use vstd::arithmetic::power2::lemma_pow2_pos;
            vstd::arithmetic::div_mod::lemma_fundamental_div_mod(v as int, 2);
            let p = vstd::arithmetic::power2::pow2(r as nat) as int;
            assert((v as int / 2) * (2 * p) == ((v as int / 2) * 2) * p) by (nonlinear_arith);
            vstd::arithmetic::mul::lemma_mul_inequality((v as int / 2) * 2, v as int, p);
            assert((v as int / 2) * vstd::arithmetic::power2::pow2((r + 1) as nat) <= x as int);
            // the count stays below the bit width of the machine word
            vstd::arithmetic::mul::lemma_mul_inequality(
                1,
                v as int / 2,
                vstd::arithmetic::power2::pow2((r + 1) as nat) as int,
            );
            vstd::arithmetic::power2::lemma2_to64();
            vstd::arithmetic::power2::lemma2_to64_rest();
            if r + 1 >= 64 {
                if r + 1 > 64 {
                    vstd::arithmetic::power2::lemma_pow2_strictly_increases(64, (r + 1) as nat);
                }
                assert(false);
            }
        }
        v = v / 2;
        r = r + 1;
    }
    r
}

/// Decides whether merging is cheaper by one full rebuild than by
/// repeated insertion: rebuilding costs on the order of the combined
/// length, repeated insertion on the order of the smaller length times
/// the logarithm of the larger.
fn better_to_rebuild(len1: usize, len2: usize) -> (r: bool)
    requires
        len1 >= 1,
    ensures
        r == (2 * (len1 as int + len2 as int) < len2 as int * log2_floor(len1 as int)),
{
    let lg = log2_fast(len1);
    let a: u128 = 2u128 * (len1 as u128 + len2 as u128);
    proof {
        vstd::arithmetic::mul::lemma_mul_upper_bound(
            len2 as int,
            u64::MAX as int,
            lg as int,
            63,
        );
    }
    let b: u128 = (len2 as u128) * (lg as u128);
    a < b
}

/// During the unconditional descent to the bottom, swapping the moving
/// element at `h` with the chosen child `ch` keeps every link away from
/// the moving element intact.
proof fn lemma_sift_to_bottom_step<T, C: Comparator<T>>(cmp: C, s: Seq<T>, end: int, h: int, ch: int)
    requires
        0 <= h < end <= s.len(),
        ch == 2 * h + 1 || ch == 2 * h + 2,
        ch < end,
        ch == 2 * h + 2 ==> cmp.le(s[2 * h + 1], s[ch]),
        (ch == 2 * h + 1 && 2 * h + 2 < end) ==> cmp.le(s[2 * h + 2], s[ch]),
        seg_links_detached(cmp, s, end, h),
        kids_bound_above(cmp, s, end, 0, h),
    ensures
        ({
            let s2 = s.update(h, s[ch]).update(ch, s[h]);
            &&& seg_links_detached(cmp, s2, end, ch)
            &&& kids_bound_above(cmp, s2, end, 0, ch)
        }),
{
    let s2 = s.update(h, s[ch]).update(ch, s[h]);
    assert(parent_index(ch) == h);
    assert forall|i: int|
        1 <= i < end && i != ch && parent_index(i) != ch implies cmp.le(
        s2[i],
        s2[parent_index(i)],
    ) by {
        let pi = parent_index(i);
        assert(0 <= pi < i);
        if i == h {
            // the child value that moved up is below h's old parent
            assert(cmp.le(s[ch], s[parent_index(h)]));
        } else if pi == h {
            // the sibling of the chosen child is below it by the choice of child
            assert(i == 2 * h + 1 || i == 2 * h + 2);
            assert(i != ch);
            assert(cmp.le(s[i], s[ch]));
        } else {
            assert(s2[i] == s[i] && s2[pi] == s[pi]);
            assert(cmp.le(s[i], s[pi]));
        }
    }
    assert forall|c: int| 1 <= c < end && parent_index(c) == ch implies cmp.le(
        s2[c],
        s2[parent_index(ch)],
    ) by {
        assert(c != h && c != ch);
        assert(s2[c] == s[c]);
        assert(cmp.le(s[c], s[ch]));
    }
}

/// When the moving element at `h` is not below either of its children in
/// the segment, every link with parent index at least `n` holds.
proof fn lemma_sift_down_stop<T, C: Comparator<T>>(
    cmp: C,
    s: Seq<T>,
    end: int,
    n: int,
    h: int,
    ch: int,
)
    requires
        0 <= n <= h < end <= s.len(),
        ch == 2 * h + 1 || ch == 2 * h + 2,
        ch < end,
        ch == 2 * h + 2 ==> cmp.le(s[2 * h + 1], s[ch]),
        (ch == 2 * h + 1 && 2 * h + 2 < end) ==> cmp.le(s[2 * h + 2], s[ch]),
        seg_links_from_except(cmp, s, end, n, h),
        cmp.le(s[ch], s[h]),
    ensures
        seg_links_from(cmp, s, end, n),
{
    assert forall|i: int| 1 <= i < end && parent_index(i) >= n implies cmp.le(
        s[i],
        s[parent_index(i)],
    ) by {
        if parent_index(i) == h {
            assert(i == 2 * h + 1 || i == 2 * h + 2);
            if i == ch {
            } else {
                cmp.lemma_le_transitive(s[i], s[ch], s[h]);
            }
        }
    }
}

/// When the moving element at `h` has no child inside the segment, every
/// link with parent index at least `n` holds.
proof fn lemma_sift_down_leaf<T, C: Comparator<T>>(cmp: C, s: Seq<T>, end: int, n: int, h: int)
    requires
        0 <= n <= h < end <= s.len(),
        2 * h + 1 >= end,
        seg_links_from_except(cmp, s, end, n, h),
    ensures
        seg_links_from(cmp, s, end, n),
{
    assert forall|i: int| 1 <= i < end && parent_index(i) >= n implies cmp.le(
        s[i],
        s[parent_index(i)],
    ) by {
        assert(parent_index(i) != h);
    }
}

/// After the moving element at `p` is found strictly greater than its
/// parent, swapping it with the parent preserves the sift-up invariant at
/// the parent position.
proof fn lemma_sift_up_step<T, C: Comparator<T>>(cmp: C, s: Seq<T>, end: int, p: int)
    requires
        1 <= p < end,
        end == s.len(),
        almost_heap_up(cmp, s, end, p),
        kids_bound_above(cmp, s, end, 0, p),
        cmp.le(s[parent_index(p)], s[p]),
        !cmp.le(s[p], s[parent_index(p)]),
    ensures
        ({
            let q = parent_index(p);
            let s2 = s.update(p, s[q]).update(q, s[p]);
            &&& almost_heap_up(cmp, s2, end, q)
            &&& kids_bound_above(cmp, s2, end, 0, q)
            &&& s2[q] == s[p]
        }),
{
    let q = parent_index(p);
    let s2 = s.update(p, s[q]).update(q, s[p]);
    assert(0 <= q < p);
    assert forall|i: int| 1 <= i < end && i != q implies cmp.le(s2[i], s2[parent_index(i)]) by {
        let pi = parent_index(i);
        assert(0 <= pi < i);
        if i == p {
            // the old parent value moved down into p; it is below p's old parent by the
            // grandparent bound when q >= 1, and p's parent is q itself
            assert(s2[p] == s[q]);
            assert(cmp.le(s[q], s[p]));
        } else if pi == p {
            // a child of p now sits below the old parent value
            assert(cmp.le(s[i], s[q]));
        } else if pi == q {
            // the sibling (or p itself, handled above): below the moving element by
            // transitivity through the old parent
            assert(cmp.le(s[i], s[q]));
            cmp.lemma_le_transitive(s[i], s[q], s[p]);
        } else {
            assert(cmp.le(s[i], s[pi]));
        }
    }
    if q >= 1 {
        let g = parent_index(q);
        assert forall|c: int| 1 <= c < end && parent_index(c) == q implies cmp.le(
            s2[c],
            s2[parent_index(q)],
        ) by {
            assert(g != p && g != q);
            assert(s2[g] == s[g]);
            if c == p {
                assert(cmp.le(s[q], s[g]));
            } else {
                assert(cmp.le(s[c], s[q]));
                assert(cmp.le(s[q], s[g]));
                cmp.lemma_le_transitive(s[c], s[q], s[g]);
            }
        }
    }
}

/// Swapping two elements of a sequence leaves its multiset unchanged.
proof fn lemma_swap_to_multiset<T>(s: Seq<T>, i: int, j: int)
    requires
        0 <= i < s.len(),
        0 <= j < s.len(),
    ensures
        s.update(i, s[j]).update(j, s[i]).to_multiset() == s.to_multiset(),
{
    broadcast use vstd::seq_lib::group_to_multiset_ensures;
    broadcast use vstd::seq_lib::to_multiset_update;
    broadcast use vstd::multiset::group_multiset_axioms;

    if i == j {
        assert(s.update(i, s[j]).update(j, s[i]) =~= s);
    } else {
        let s1 = s.update(i, s[j]);
        assert(s1[j] == s[j]);
        assert(s.contains(s[i]));
        assert(s.to_multiset().count(s[i]) > 0);
        assert(s.update(i, s[j]).update(j, s[i]).to_multiset() =~= s.to_multiset());
    }
}

/// In a non-empty well-formed segment the root bounds every element: the
/// chain of parent links leads from any index up to index 0.
proof fn lemma_seg_root_is_max<T, C: Comparator<T>>(cmp: C, s: Seq<T>, end: int, i: int)
    requires
        heap_seg(cmp, s, end),
        0 < end <= s.len(),
        0 <= i < end,
    ensures
        cmp.le(s[i], s[0]),
    decreases i,
{
    if i > 0 {
        let p = parent_index(i);
        assert(0 <= p < i);
        assert(cmp.le(s[i], s[p]));
        lemma_seg_root_is_max(cmp, s, end, p);
        cmp.lemma_le_transitive(s[i], s[p], s[0]);
    } else {
        cmp.lemma_le_total(s[0], s[0]);
    }
}

/// The root of a non-empty well-formed segment is the maximum of the
/// segment's elements under the comparator.
proof fn lemma_heap_root_is_max_seg<T, C: Comparator<T>>(cmp: C, s: Seq<T>, end: int)
    requires
        heap_seg(cmp, s, end),
        0 < end <= s.len(),
    ensures
        forall|i: int| 0 <= i < end ==> cmp.le(s[i], s[0]),
{
    assert forall|i: int| 0 <= i < end implies cmp.le(s[i], s[0]) by {
        lemma_seg_root_is_max(cmp, s, end, i);
    }
}

/// The root of a non-empty well-formed heap is the maximum of its
/// elements under the heap's comparator.
pub proof fn lemma_heap_root_is_max<T, C: Comparator<T>>(cmp: C, s: Seq<T>)
    requires
        heap_ordered(cmp, s),
        s.len() > 0,
    ensures
        forall|i: int| 0 <= i < s.len() ==> cmp.le(s[i], s[0]),
{
    assert forall|i: int| 0 <= i < s.len() implies cmp.le(s[i], s[0]) by {
        lemma_seg_root_is_max(cmp, s, s.len() as int, i);
    }
}

} // verus!
