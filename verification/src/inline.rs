//! Byte containers of fixed capacity that live inside the value that holds
//! them: `arrayvec::ArrayVec`, of 32 bytes for a digest and of 64 for a
//! signature.

use arrayvec::ArrayVec;
use vstd::prelude::*;

verus! {

/// Makes `arrayvec::ArrayVec` known as a type. Nothing is said of what is
/// inside a value of it; what it holds is named below, and the calls that
/// follow say how each method changes or shows that.
#[verifier::external_type_specification]
#[verifier::external_body]
#[verifier::reject_recursive_types(T)]
pub struct ExArrayVec<T, const CAP: usize>(ArrayVec<T, CAP>);

/// The bytes that a container of capacity 32 holds, in order.
pub uninterp spec fn digest_contents(v: ArrayVec<u8, 32>) -> Seq<u8>;

/// The bytes that a container of capacity 64 holds, in order.
pub uninterp spec fn signature_contents(v: ArrayVec<u8, 64>) -> Seq<u8>;

/// Calls `ArrayVec::new`. Claims that the new container holds nothing.
#[verifier::external_body]
pub(crate) fn digest_new() -> (r: ArrayVec<u8, 32>)
    ensures
        digest_contents(r) == Seq::<u8>::empty(),
{
    ArrayVec::new()
}

/// Calls `ArrayVec::try_extend_from_slice` and says whether it succeeded.
/// Claims that it does exactly where `other` fits into what is left of the 32
/// bytes, that `other` is then appended, and that otherwise nothing changes.
#[verifier::external_body]
pub(crate) fn digest_try_extend_from_slice(v: &mut ArrayVec<u8, 32>, other: &[u8]) -> (r: bool)
    ensures
        r == (digest_contents(*old(v)).len() + other@.len() <= 32),
        r ==> digest_contents(*final(v)) == digest_contents(*old(v)) + other@,
        !r ==> digest_contents(*final(v)) == digest_contents(*old(v)),
{
    v.try_extend_from_slice(other).is_ok()
}

/// Calls `ArrayVec::as_slice`. Claims that the slice holds what the
/// container holds, which is never more than its capacity.
#[verifier::external_body]
pub(crate) fn digest_as_slice(v: &ArrayVec<u8, 32>) -> (r: &[u8])
    ensures
        r@ == digest_contents(*v),
        r@.len() <= 32,
{
    v.as_slice()
}

/// Calls `ArrayVec::new`. Claims that the new container holds nothing.
#[verifier::external_body]
pub(crate) fn signature_new() -> (r: ArrayVec<u8, 64>)
    ensures
        signature_contents(r) == Seq::<u8>::empty(),
{
    ArrayVec::new()
}

/// Calls `ArrayVec::try_extend_from_slice` and says whether it succeeded.
/// Claims that it does exactly where `other` fits into what is left of the 64
/// bytes, that `other` is then appended, and that otherwise nothing changes.
#[verifier::external_body]
pub(crate) fn signature_try_extend_from_slice(v: &mut ArrayVec<u8, 64>, other: &[u8]) -> (r: bool)
    ensures
        r == (signature_contents(*old(v)).len() + other@.len() <= 64),
        r ==> signature_contents(*final(v)) == signature_contents(*old(v)) + other@,
        !r ==> signature_contents(*final(v)) == signature_contents(*old(v)),
{
    v.try_extend_from_slice(other).is_ok()
}

/// Calls `ArrayVec::as_slice`. Claims that the slice holds what the
/// container holds, which is never more than its capacity.
#[verifier::external_body]
pub(crate) fn signature_as_slice(v: &ArrayVec<u8, 64>) -> (r: &[u8])
    ensures
        r@ == signature_contents(*v),
        r@.len() <= 64,
{
    v.as_slice()
}

} // verus!
