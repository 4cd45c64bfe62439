//! Small trusted shims over standard `Vec` and slice operations that
//! `vstd` does not specify itself.

use vstd::prelude::*;

verus! {

/// Relies on the standard slice `swap`: it exchanges the elements at the
/// two in-bounds indices and touches nothing else.
#[verifier::external_body]
pub(crate) fn vec_swap_idx<T>(v: &mut Vec<T>, a: usize, b: usize)
    requires
        a < old(v)@.len(),
        b < old(v)@.len(),
    ensures
        final(v)@ == old(v)@.update(a as int, old(v)@[b as int]).update(
            b as int,
            old(v)@[a as int],
        ),
{
    v.swap(a, b);
}

/// Relies on `Vec::capacity`: the number of elements the vector can hold
/// without reallocating, which is never below its length.
#[verifier::external_body]
pub(crate) fn vec_capacity<T>(v: &Vec<T>) -> (r: usize)
    ensures
        v@.len() <= r,
{
    v.capacity()
}

/// Relies on `Vec::reserve_exact`: it only adjusts capacity and leaves the
/// contents unchanged.
#[verifier::external_body]
pub(crate) fn vec_reserve_exact<T>(v: &mut Vec<T>, additional: usize)
    ensures
        final(v)@ == old(v)@,
{
    v.reserve_exact(additional);
}

/// Relies on `Vec::shrink_to_fit`: it only adjusts capacity and leaves the
/// contents unchanged.
#[verifier::external_body]
pub(crate) fn vec_shrink_to_fit<T>(v: &mut Vec<T>)
    ensures
        final(v)@ == old(v)@,
{
    v.shrink_to_fit();
}

} // verus!
