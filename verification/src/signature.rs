//! Detached Ed25519 signatures: 64 raw bytes, with no tag and no length.

use crate::bytes::put_bytes;
use crate::bytes::slices_equal;
use crate::inline::signature_as_slice;
use crate::inline::signature_contents;
use crate::inline::signature_new;
use crate::inline::signature_try_extend_from_slice;
use arrayvec::ArrayVec;
use vstd::prelude::*;
use vstd::slice::slice_subrange;

verus! {

/// The number of bytes in an Ed25519 signature.
pub const ED25519_SIGNATURE_SIZE: usize = 64;

/// The greatest number of bytes that an encoded signature takes.
pub const MAX_SIGNATURE_SIZE: usize = 64;

/// What can go wrong with a signature.
#[derive(Debug, Clone, Copy, PartialEq, Eq, Structural)]
pub enum Error {
    /// The signature has not 64 bytes, or the buffer is too small for it.
    EncodeError,
    /// Fewer than 64 bytes are left to read.
    DecodeError,
}

/// A signature whose bytes lie in a buffer that someone else owns.
#[derive(Debug, Clone, Copy)]
pub struct Signature<'a>(pub &'a [u8]);

/// A signature that holds its own bytes, at most 64 of them.
#[derive(Debug)]
pub struct OwnedSignature(pub ArrayVec<u8, 64>);

impl<'a> View for Signature<'a> {
    type V = Seq<u8>;

    open spec fn view(&self) -> Seq<u8> {
        self.0@
    }
}

impl View for OwnedSignature {
    type V = Seq<u8>;

    open spec fn view(&self) -> Seq<u8> {
        signature_contents(self.0)
    }
}

impl<'a> Signature<'a> {
    /// The bytes of the signature.
    pub fn as_bytes(&self) -> (r: &'a [u8])
        ensures
            r@ == self@,
    {
        self.0
    }

    /// Whether two signatures hold the same bytes.
    pub fn matches(&self, other: &Signature) -> (r: bool)
        ensures
            r == (self@ == other@),
    {
        slices_equal(self.0, other.0)
    }

    /// Writes the signature at the start of `out` and returns the number of
    /// bytes written. Fails, and writes nothing, where the signature has not
    /// 64 bytes or `out` has fewer.
    pub fn encode(&self, out: &mut [u8]) -> (r: Result<usize, Error>)
        ensures
            self@.len() == ED25519_SIGNATURE_SIZE && old(out)@.len() >= ED25519_SIGNATURE_SIZE
                ==> r == Ok::<usize, Error>(ED25519_SIGNATURE_SIZE) && final(out)@ == self@ + old(
                out,
            )@.skip(64),
            !(self@.len() == ED25519_SIGNATURE_SIZE && old(out)@.len() >= ED25519_SIGNATURE_SIZE)
                ==> r == Err::<usize, Error>(Error::EncodeError) && final(out)@ == old(out)@,
    {
        if self.0.len() != ED25519_SIGNATURE_SIZE || out.len() < ED25519_SIGNATURE_SIZE {
            return Err(Error::EncodeError);
        }
        let ghost before = out@;
        let at = put_bytes(out, 0, self.0);
        proof {
            assert(out@ =~= self@ + before.skip(64));
        }
        Ok(at)
    }

    /// Reads the signature that `bytes` starts with and hands back the bytes
    /// after it.
    pub fn decode(bytes: &'a [u8]) -> (r: Result<(Signature<'a>, &'a [u8]), Error>)
        ensures
            bytes@.len() >= ED25519_SIGNATURE_SIZE ==> (r matches Ok((sig, rest)) && sig@
                == bytes@.take(64) && rest@ == bytes@.skip(64)),
            bytes@.len() < ED25519_SIGNATURE_SIZE ==> (r matches Err(e) && e == Error::DecodeError),
    {
        if bytes.len() < ED25519_SIGNATURE_SIZE {
            return Err(Error::DecodeError);
        }
        let sig = slice_subrange(bytes, 0, ED25519_SIGNATURE_SIZE);
        let rest = slice_subrange(bytes, ED25519_SIGNATURE_SIZE, bytes.len());
        proof {
            assert(sig@ =~= bytes@.take(64));
            assert(rest@ =~= bytes@.skip(64));
        }
        Ok((Signature(sig), rest))
    }

    /// A copy of the signature that holds its own bytes.
    pub fn to_owned(&self) -> (r: OwnedSignature)
        requires
            self@.len() <= ED25519_SIGNATURE_SIZE,
        ensures
            r@ == self@,
    {
        let mut vec = signature_new();
        let fits = signature_try_extend_from_slice(&mut vec, self.0);
        proof {
            assert(Seq::<u8>::empty() + self@ =~= self@);
        }
        OwnedSignature(vec)
    }
}

impl Clone for OwnedSignature {
    fn clone(&self) -> (r: Self)
        ensures
            r@ == self@,
    {
        self.as_ref().to_owned()
    }
}

impl OwnedSignature {
    /// The same signature, borrowing the bytes.
    pub fn as_ref(&self) -> (r: Signature<'_>)
        ensures
            r@ == self@,
            r@.len() <= ED25519_SIGNATURE_SIZE,
    {
        Signature(signature_as_slice(&self.0))
    }
}

} // verus!
