//! Tagged digests.
//!
//! On the wire a digest is the number of its algorithm, the length of the
//! digest, both as variable-length integers, and then the digest itself. The
//! one algorithm known is BLAKE3 with 32 bytes of output, so every encoded
//! digest takes 34 bytes.

use crate::bytes::put_bytes;
use crate::bytes::slices_equal;
use crate::inline::digest_as_slice;
use crate::inline::digest_contents;
use crate::inline::digest_new;
use crate::inline::digest_try_extend_from_slice;
use crate::varint;
use arrayvec::ArrayVec;
use vstd::prelude::*;
use vstd::slice::slice_subrange;

verus! {

/// The number of bytes in a BLAKE3 digest.
pub const BLAKE3_HASH_SIZE: usize = 32;

/// The number that stands for BLAKE3 on the wire.
pub const BLAKE3_NUMERIC_ID: u64 = 0;

/// The greatest number of bytes that an encoded digest takes.
pub const MAX_YAMF_HASH_SIZE: usize = 34;

/// The BLAKE3 digest of `data`, as the `blake3` crate computes it.
pub uninterp spec fn blake3_digest(data: Seq<u8>) -> Seq<u8>;

/// Calls `blake3::hash` and copies the 32 bytes out of its result. Claims only
/// that the result is a function of the input, named `blake3_digest`.
#[verifier::external_body]
pub(crate) fn blake3_hash(input: &[u8]) -> (r: [u8; 32])
    ensures
        r@ == blake3_digest(input@),
{
    *blake3::hash(input).as_bytes()
}

/// What can go wrong with a tagged digest.
#[derive(Debug, Clone, Copy, PartialEq, Eq, Structural)]
pub enum Error {
    /// The digest does not have the length of its algorithm, or the buffer is
    /// too small for it.
    EncodeError,
    /// The algorithm number or the length is not a canonical variable-length
    /// integer.
    DecodeVaru64Error,
    /// The algorithm is unknown, the length is not that of the algorithm, or
    /// the digest is cut short.
    DecodeError,
}

/// A digest whose bytes lie in a buffer that someone else owns.
#[derive(Debug, Clone, Copy)]
pub enum YasmfHash<'a> {
    Blake3(&'a [u8]),
}

/// A digest that holds its own bytes, at most 32 of them.
#[derive(Debug)]
pub enum OwnedYasmfHash {
    Blake3(ArrayVec<u8, 32>),
}

/// The bytes that stand for a digest on the wire.
pub open spec fn hash_encoding(digest: Seq<u8>) -> Seq<u8> {
    varint::encoding(BLAKE3_NUMERIC_ID) + varint::encoding(BLAKE3_HASH_SIZE as u64) + digest
}

/// The digest that `input` starts with and the number of bytes it takes.
pub open spec fn parse_hash(input: Seq<u8>) -> Result<(Seq<u8>, nat), Error> {
    match varint::parse(input) {
        None => Err(Error::DecodeVaru64Error),
        Some((tag, tag_width)) => if tag != BLAKE3_NUMERIC_ID {
            Err(Error::DecodeError)
        } else {
            match varint::parse(input.skip(tag_width as int)) {
                None => Err(Error::DecodeVaru64Error),
                Some((len, len_width)) => {
                    let start = tag_width + len_width;
                    if len != BLAKE3_HASH_SIZE || input.len() < start + BLAKE3_HASH_SIZE {
                        Err(Error::DecodeError)
                    } else {
                        Ok(
                            (
                                input.subrange(start as int, start + BLAKE3_HASH_SIZE),
                                (start + BLAKE3_HASH_SIZE) as nat,
                            ),
                        )
                    }
                },
            }
        },
    }
}

/// Parsing an encoded digest gives the digest back, whatever follows it.
pub proof fn lemma_parse_hash_encoding(digest: Seq<u8>, rest: Seq<u8>)
    requires
        digest.len() == BLAKE3_HASH_SIZE,
    ensures
        hash_encoding(digest).len() == MAX_YAMF_HASH_SIZE,
        parse_hash(hash_encoding(digest) + rest) == Ok::<(Seq<u8>, nat), Error>((digest, 34nat)),
{
    let input = hash_encoding(digest) + rest;
    assert(input.skip(1) =~= varint::encoding(BLAKE3_HASH_SIZE as u64) + (digest + rest));
    assert(input.subrange(2, 34) =~= digest);
}

/// A digest that parses took 34 bytes, has 32 of its own, and those 34 bytes
/// are its encoding.
pub proof fn lemma_hash_encoding_parse(input: Seq<u8>)
    requires
        parse_hash(input) is Ok,
    ensures
        ({
            let (digest, used) = parse_hash(input).unwrap();
            &&& used == MAX_YAMF_HASH_SIZE
            &&& used <= input.len()
            &&& digest.len() == BLAKE3_HASH_SIZE
            &&& input.subrange(0, 34) == hash_encoding(digest)
        }),
{
    let (digest, used) = parse_hash(input).unwrap();
    assert(input.subrange(0, 34) =~= hash_encoding(digest));
}

impl<'a> View for YasmfHash<'a> {
    type V = Seq<u8>;

    open spec fn view(&self) -> Seq<u8> {
        match self {
            YasmfHash::Blake3(bytes) => bytes@,
        }
    }
}

impl View for OwnedYasmfHash {
    type V = Seq<u8>;

    open spec fn view(&self) -> Seq<u8> {
        match self {
            OwnedYasmfHash::Blake3(bytes) => digest_contents(*bytes),
        }
    }
}

impl<'a> YasmfHash<'a> {
    /// The bytes of the digest.
    pub fn as_bytes(&self) -> (r: &'a [u8])
        ensures
            r@ == self@,
    {
        match self {
            YasmfHash::Blake3(bytes) => bytes,
        }
    }

    /// Whether two digests are of the same algorithm and hold the same bytes.
    pub fn matches(&self, other: &YasmfHash) -> (r: bool)
        ensures
            r == (self@ == other@),
    {
        slices_equal(self.as_bytes(), other.as_bytes())
    }

    /// Writes the digest at the start of `out` and returns the number of bytes
    /// written. Fails, and writes nothing, where the digest has not 32 bytes or
    /// `out` has fewer than 34.
    pub fn encode(&self, out: &mut [u8]) -> (r: Result<usize, Error>)
        ensures
            self@.len() == BLAKE3_HASH_SIZE && old(out)@.len() >= MAX_YAMF_HASH_SIZE ==> r == Ok::<
                usize,
                Error,
            >(MAX_YAMF_HASH_SIZE) && final(out)@ == hash_encoding(self@) + old(out)@.skip(34),
            !(self@.len() == BLAKE3_HASH_SIZE && old(out)@.len() >= MAX_YAMF_HASH_SIZE) ==> r
                == Err::<usize, Error>(Error::EncodeError) && final(out)@ == old(out)@,
    {
        let digest = self.as_bytes();
        if digest.len() != BLAKE3_HASH_SIZE || out.len() < MAX_YAMF_HASH_SIZE {
            return Err(Error::EncodeError);
        }
        let ghost before = out@;
        let mut number = [0u8; 9];
        let number_width = varint::varu64_encode(BLAKE3_NUMERIC_ID, &mut number);
        let at = put_bytes(out, 0, slice_subrange(number.as_slice(), 0, number_width));
        let mut len = [0u8; 9];
        let len_width = varint::varu64_encode(BLAKE3_HASH_SIZE as u64, &mut len);
        let at = put_bytes(out, at, slice_subrange(len.as_slice(), 0, len_width));
        let at = put_bytes(out, at, digest);
        proof {
            assert(out@ =~= hash_encoding(self@) + before.skip(34));
        }
        Ok(at)
    }

    /// Reads the digest that `bytes` starts with and hands back the bytes
    /// after it.
    pub fn decode(bytes: &'a [u8]) -> (r: Result<(YasmfHash<'a>, &'a [u8]), Error>)
        ensures
            match parse_hash(bytes@) {
                Ok((digest, used)) => r matches Ok((hash, rest)) && hash@ == digest && rest@
                    == bytes@.skip(used as int),
                Err(e) => r matches Err(x) && x == e,
            },
    {
        let (tag, after_tag) = match varint::varu64_decode(bytes) {
            Some(pair) => pair,
            None => {
                return Err(Error::DecodeVaru64Error);
            },
        };
        if tag != BLAKE3_NUMERIC_ID {
            return Err(Error::DecodeError);
        }
        let (len, after_len) = match varint::varu64_decode(after_tag) {
            Some(pair) => pair,
            None => {
                return Err(Error::DecodeVaru64Error);
            },
        };
        if len != BLAKE3_HASH_SIZE as u64 || after_len.len() < BLAKE3_HASH_SIZE {
            return Err(Error::DecodeError);
        }
        let digest = slice_subrange(after_len, 0, BLAKE3_HASH_SIZE);
        let rest = slice_subrange(after_len, BLAKE3_HASH_SIZE, after_len.len());
        proof {
            let (d, used) = parse_hash(bytes@).unwrap();
            assert(digest@ =~= d);
            assert(rest@ =~= bytes@.skip(used as int));
        }
        Ok((YasmfHash::Blake3(digest), rest))
    }

    /// A copy of the digest that holds its own bytes.
    pub fn to_owned(&self) -> (r: OwnedYasmfHash)
        requires
            self@.len() <= BLAKE3_HASH_SIZE,
        ensures
            r@ == self@,
    {
        let mut vec = digest_new();
        let fits = digest_try_extend_from_slice(&mut vec, self.as_bytes());
        proof {
            assert(Seq::<u8>::empty() + self@ =~= self@);
        }
        OwnedYasmfHash::Blake3(vec)
    }
}

impl Clone for OwnedYasmfHash {
    fn clone(&self) -> (r: Self)
        ensures
            r@ == self@,
    {
        self.as_ref().to_owned()
    }
}

impl OwnedYasmfHash {
    /// The same digest, borrowing the bytes.
    pub fn as_ref(&self) -> (r: YasmfHash<'_>)
        ensures
            r@ == self@,
            r@.len() <= BLAKE3_HASH_SIZE,
    {
        match self {
            OwnedYasmfHash::Blake3(bytes) => YasmfHash::Blake3(digest_as_slice(bytes)),
        }
    }
}

/// The BLAKE3 digest of `bytes`.
pub fn new_blake3(bytes: &[u8]) -> (r: OwnedYasmfHash)
    ensures
        r@ == blake3_digest(bytes@),
        r@.len() == BLAKE3_HASH_SIZE,
{
    let digest = blake3_hash(bytes);
    YasmfHash::Blake3(digest.as_slice()).to_owned()
}

} // verus!
