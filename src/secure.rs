//! Zeroing-on-drop byte buffers, held through `secstr`.
use vstd::prelude::*;

verus! {

#[verifier::external_type_specification]
#[verifier::external_body]
#[verifier::reject_recursive_types(T)]
pub struct ExSecVec<T: Sized + Copy>(secstr::SecVec<T>);

/// The bytes that a secure buffer holds.
pub uninterp spec fn sec_content(v: secstr::SecVec<u8>) -> Seq<u8>;

/// Relies on `secstr::SecVec::new`: the buffer takes over the given bytes.
#[verifier::external_body]
pub fn sec_new(bytes: Vec<u8>) -> (r: secstr::SecVec<u8>)
    ensures
        sec_content(r) == bytes@,
{
    secstr::SecVec::new(bytes)
}

/// Relies on `secstr::SecVec::unsecure`: a view of the bytes held.
#[verifier::external_body]
pub fn sec_bytes(v: &secstr::SecVec<u8>) -> (r: &[u8])
    ensures
        r@ == sec_content(*v),
{
    v.unsecure()
}

/// Relies on `secstr::SecVec::zero_out`: the memory is overwritten with
/// zeros and the length becomes zero.
#[verifier::external_body]
pub fn sec_zero_out(v: &mut secstr::SecVec<u8>)
    ensures
        sec_content(*final(v)) == Seq::<u8>::empty(),
{
    v.zero_out()
}

} // verus!
