//! Contracts assumed of the backing vector, for the few capacity methods
//! that vstd leaves unspecified. Capacity is informational: no correctness
//! argument in this crate rests on it beyond `capacity() >= len()`.

use vstd::prelude::*;

verus! {

/// Relies on `Vec::capacity`: the number of elements the vector can hold
/// without reallocating, never less than its length.
#[verifier::external_body]
pub(crate) fn vec_capacity<T>(v: &Vec<T>) -> (c: usize)
    ensures
        c >= v@.len(),
{
    v.capacity()
}

/// Relies on `Vec::reserve_exact`: reserves capacity without changing the
/// contents.
#[verifier::external_body]
pub(crate) fn vec_reserve_exact<T>(v: &mut Vec<T>, additional: usize)
    ensures
        final(v)@ == old(v)@,
{
    v.reserve_exact(additional)
}

/// Relies on `Vec::shrink_to_fit`: releases spare capacity without
/// changing the contents.
#[verifier::external_body]
pub(crate) fn vec_shrink_to_fit<T>(v: &mut Vec<T>)
    ensures
        final(v)@ == old(v)@,
{
    v.shrink_to_fit()
}

} // verus!
