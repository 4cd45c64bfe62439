//! The comparison capability that parameterizes the heap's ordering.
//!
//! A [`Comparator`] carries a mathematical total preorder (`le`) together
//! with an executable three-way comparison that is proved to agree with it.
//! Four standard forms are provided: natural order ([`MaxComparator`]),
//! inverted natural order ([`MinComparator`]), a wrapped ordering capability
//! ([`FnComparator`]), and ordering by an extracted key ([`KeyComparator`]).

use vstd::prelude::*;

verus! {

use core::cmp::Ordering;

/// A comparison strategy over elements of type `T`.
///
/// The spec-level relation `le` must be a total preorder: total and
/// transitive. It need not be antisymmetric; two distinct elements may
/// compare as equal (for example under a key extractor). The executable
/// `compare` returns the three-way ordering induced by `le`.
pub trait Comparator<T>: Sized {
    /// The mathematical order this comparator realizes: `le(a, b)` means
    /// `a` is not greater than `b`.
    spec fn le(&self, a: T, b: T) -> bool;

    /// Any two elements are comparable.
    proof fn lemma_le_total(&self, a: T, b: T)
        ensures
            self.le(a, b) || self.le(b, a),
    ;

    /// The order is transitive.
    proof fn lemma_le_transitive(&self, a: T, b: T, c: T)
        requires
            self.le(a, b),
            self.le(b, c),
        ensures
            self.le(a, c),
    ;

    /// Three-way comparison agreeing with `le`: `Less` when strictly below,
    /// `Greater` when strictly above, `Equal` when below in both directions.
    fn compare(&self, a: &T, b: &T) -> (r: Ordering)
        ensures
            r == Ordering::Less <==> (self.le(*a, *b) && !self.le(*b, *a)),
            r == Ordering::Greater <==> (self.le(*b, *a) && !self.le(*a, *b)),
            r == Ordering::Equal <==> (self.le(*a, *b) && self.le(*b, *a)),
    ;
}

/// Orders `i64` elements by their natural order, yielding a max-heap.
#[derive(Clone, Copy, PartialEq, Eq, Structural, Debug)]
pub struct MaxComparator;

impl Comparator<i64> for MaxComparator {
    open spec fn le(&self, a: i64, b: i64) -> bool {
        a <= b
    }

    proof fn lemma_le_total(&self, a: i64, b: i64) {
    }

    proof fn lemma_le_transitive(&self, a: i64, b: i64, c: i64) {
    }

    fn compare(&self, a: &i64, b: &i64) -> (r: Ordering) {
        if *a < *b {
            Ordering::Less
        } else if *a == *b {
            Ordering::Equal
        } else {
            Ordering::Greater
        }
    }
}

impl Default for MaxComparator {
    fn default() -> (r: Self)
        ensures
            r == (MaxComparator),
    {
        MaxComparator
    }
}

/// Orders `i64` elements by their inverted natural order, yielding a min-heap.
#[derive(Clone, Copy, PartialEq, Eq, Structural, Debug)]
pub struct MinComparator;

impl Comparator<i64> for MinComparator {
    open spec fn le(&self, a: i64, b: i64) -> bool {
        b <= a
    }

    proof fn lemma_le_total(&self, a: i64, b: i64) {
    }

    proof fn lemma_le_transitive(&self, a: i64, b: i64, c: i64) {
    }

    fn compare(&self, a: &i64, b: &i64) -> (r: Ordering) {
        if *b < *a {
            Ordering::Less
        } else if *b == *a {
            Ordering::Equal
        } else {
            Ordering::Greater
        }
    }
}

impl Default for MinComparator {
    fn default() -> (r: Self)
        ensures
            r == (MinComparator),
    {
        MinComparator
    }
}

/// Wraps a caller-supplied ordering capability.
///
/// A bare closure cannot carry the totality and transitivity laws its order
/// must satisfy, so the wrapped value is itself a [`Comparator`]; this
/// adapter exists to mirror the conventional function-comparator surface.
#[derive(Clone, Copy, PartialEq, Eq, Debug)]
pub struct FnComparator<F>(pub F);

impl<T, F: Comparator<T>> Comparator<T> for FnComparator<F> {
    open spec fn le(&self, a: T, b: T) -> bool {
        self.0.le(a, b)
    }

    proof fn lemma_le_total(&self, a: T, b: T) {
        self.0.lemma_le_total(a, b);
    }

    proof fn lemma_le_transitive(&self, a: T, b: T, c: T) {
        self.0.lemma_le_transitive(a, b, c);
    }

    fn compare(&self, a: &T, b: &T) -> (r: Ordering) {
        self.0.compare(a, b)
    }
}

/// A caller-supplied key extraction: elements are ordered by comparing the
/// integer keys it computes.
pub trait KeyFn<T>: Sized {
    /// The key an element maps to.
    spec fn key(&self, t: T) -> int;

    /// Computes the key of an element.
    fn eval(&self, t: &T) -> (k: i64)
        ensures
            k as int == self.key(*t),
    ;
}

/// Keys an integer by its low bits: `t & mask`. For non-negative values
/// and a mask one below a power of two this is the value's remainder by
/// that power of two, so it groups values by a small modulus. It is the
/// ready-made key extraction of this crate; an ordering or key supplied
/// from outside must itself be a verified [`Comparator`] or [`KeyFn`]
/// implementation, since the order's totality and transitivity are part
/// of the heap's proofs.
#[derive(Clone, Copy, PartialEq, Eq, Structural, Debug)]
pub struct MaskKey {
    pub mask: i64,
}

impl KeyFn<i64> for MaskKey {
    open spec fn key(&self, t: i64) -> int {
        (t & self.mask) as int
    }

    fn eval(&self, t: &i64) -> (k: i64) {
        *t & self.mask
    }
}

/// Orders elements by the keys a [`KeyFn`] extracts, using the keys'
/// natural order.
#[derive(Clone, Copy, PartialEq, Eq, Debug)]
pub struct KeyComparator<F>(pub F);

impl<T, F: KeyFn<T>> Comparator<T> for KeyComparator<F> {
    open spec fn le(&self, a: T, b: T) -> bool {
        self.0.key(a) <= self.0.key(b)
    }

    proof fn lemma_le_total(&self, a: T, b: T) {
    }

    proof fn lemma_le_transitive(&self, a: T, b: T, c: T) {
    }

    fn compare(&self, a: &T, b: &T) -> (r: Ordering) {
        let ka = self.0.eval(a);
        let kb = self.0.eval(b);
        if ka < kb {
            Ordering::Less
        } else if ka == kb {
            Ordering::Equal
        } else {
            Ordering::Greater
        }
    }
}

} // verus!
