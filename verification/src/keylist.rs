//! A bounded list of keys, kept in an `arrayvec::ArrayVec` with room for one
//! key per piece. What the list holds, and what its operations do to it, is
//! stated here and taken on trust from the `arrayvec` crate.

use vstd::prelude::*;
use arrayvec::ArrayVec;
use crate::kinds::Key;

verus! {

/// `arrayvec::ArrayVec`, taken as a type of which nothing is known but what
/// the items below say.
#[verifier::external_type_specification]
#[verifier::external_body]
#[verifier::reject_recursive_types(T)]
pub struct ExArrayVec<T, const CAP: usize>(ArrayVec<T, CAP>);

/// The keys that a list holds, in the order in which they were pushed.
pub uninterp spec fn held(v: ArrayVec<Key, 36>) -> Seq<Key>;

/// `ArrayVec::new`: the list that holds nothing.
#[verifier::external_body]
pub(crate) fn keys_new() -> (v: ArrayVec<Key, 36>)
    ensures
        held(v) == Seq::<Key>::empty(),
{
    ArrayVec::new()
}

/// `ArrayVec::push`: appends one key. The call panics on a full list, so it
/// is made only with fewer than thirty-six keys in it.
#[verifier::external_body]
pub(crate) fn keys_push(v: &mut ArrayVec<Key, 36>, k: Key)
    requires
        held(*old(v)).len() < 36,
    ensures
        held(*final(v)) == held(*old(v)).push(k),
{
    v.push(k)
}

/// `ArrayVec::len`: how many keys the list holds.
#[verifier::external_body]
pub(crate) fn keys_len(v: &ArrayVec<Key, 36>) -> (n: usize)
    ensures
        n == held(*v).len(),
{
    v.len()
}

/// Indexing an `ArrayVec` through the slice it dereferences to: the key at
/// position `i`. The index panics when `i` is not below the length.
#[verifier::external_body]
pub(crate) fn keys_at(v: &ArrayVec<Key, 36>, i: usize) -> (k: Key)
    requires
        i < held(*v).len(),
    ensures
        k == held(*v)[i as int],
{
    v[i]
}

} // verus!
