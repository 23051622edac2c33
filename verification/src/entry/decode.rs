//! Reading an entry from its bytes.

use crate::bytes::to_array_32;
use crate::entry::parse_entry;
use crate::entry::parse_links;
use crate::entry::parse_numbers;
use crate::entry::Entry;
use crate::keys::public_key_is_valid;
use crate::keys::PUBLIC_KEY_LENGTH;
use crate::lipmaa::is_lipmaa_required;
use crate::signature::Signature;
use crate::signature::ED25519_SIGNATURE_SIZE;
use crate::varint::varu64_decode;
use crate::yasmf_hash;
use crate::yasmf_hash::YasmfHash;
use vstd::prelude::*;
use vstd::slice::slice_subrange;

verus! {

/// Why bytes are not the encoding of an entry. Each field has an error of its
/// own.
#[derive(Debug, Clone, Copy, PartialEq, Eq, Structural)]
pub enum Error {
    /// The end-of-feed mark is neither 0 nor 1.
    DecodeIsEndOfFeedError,
    DecodePayloadHashError { source: yasmf_hash::Error },
    DecodePayloadSizeError,
    DecodeLogIdError,
    /// Fewer than 32 bytes follow the end-of-feed mark, or they are no public
    /// key.
    DecodeAuthorError,
    DecodeSeqError,
    DecodeSeqIsZero { seq_num: u64 },
    DecodeBacklinkError { source: yasmf_hash::Error },
    DecodeLipmaaError { source: yasmf_hash::Error },
    /// What follows the digest of the payload is neither nothing nor 64 bytes.
    DecodeSigError,
    DecodeInputIsLengthZero,
}

/// Reads an entry from `bytes`, which must hold the entry and nothing else.
/// The digests and the signature of the entry are slices of `bytes`.
pub fn decode<'a>(bytes: &'a [u8]) -> (r: Result<Entry<'a>, Error>)
    ensures
        match parse_entry(bytes@) {
            Ok(e) => r matches Ok(entry) && entry@ == e,
            Err(e) => r matches Err(x) && x == e,
        },
{
    if bytes.len() == 0 {
        return Err(Error::DecodeInputIsLengthZero);
    }
    let mark = bytes[0];
    if mark > 1 {
        return Err(Error::DecodeIsEndOfFeedError);
    }
    if bytes.len() < 1 + PUBLIC_KEY_LENGTH {
        return Err(Error::DecodeAuthorError);
    }
    let author = to_array_32(slice_subrange(bytes, 1, 1 + PUBLIC_KEY_LENGTH));
    if !public_key_is_valid(&author) {
        return Err(Error::DecodeAuthorError);
    }
    let rest = slice_subrange(bytes, 1 + PUBLIC_KEY_LENGTH, bytes.len());
    proof {
        reveal(parse_numbers);
        reveal(parse_links);
        assert(rest@ =~= bytes@.skip(33));
    }
    let (log_id, rest) = match varu64_decode(rest) {
        Some(pair) => pair,
        None => {
            return Err(Error::DecodeLogIdError);
        },
    };
    let (seq_num, rest) = match varu64_decode(rest) {
        Some(pair) => pair,
        None => {
            return Err(Error::DecodeSeqError);
        },
    };
    if seq_num == 0 {
        return Err(Error::DecodeSeqIsZero { seq_num });
    }
    let mut backlink: Option<YasmfHash<'a>> = None;
    let mut lipmaa_link: Option<YasmfHash<'a>> = None;
    let mut rest = rest;
    if seq_num > 1 {
        match YasmfHash::decode(rest) {
            Err(source) => {
                return Err(Error::DecodeBacklinkError { source });
            },
            Ok((digest, after)) => {
                backlink = Some(digest);
                rest = after;
            },
        }
        let skip_link_follows = is_lipmaa_required(seq_num) || (rest.len() >= 2 && rest[0] == 0
            && rest[1] == 32);
        if skip_link_follows {
            match YasmfHash::decode(rest) {
                Err(source) => {
                    return Err(Error::DecodeLipmaaError { source });
                },
                Ok((digest, after)) => {
                    lipmaa_link = Some(digest);
                    rest = after;
                },
            }
        }
    }
    let (payload_size, rest) = match varu64_decode(rest) {
        Some(pair) => pair,
        None => {
            return Err(Error::DecodePayloadSizeError);
        },
    };
    let (payload_hash, rest) = match YasmfHash::decode(rest) {
        Err(source) => {
            return Err(Error::DecodePayloadHashError { source });
        },
        Ok(pair) => pair,
    };
    let sig = if rest.len() == 0 {
        None
    } else if rest.len() == ED25519_SIGNATURE_SIZE {
        Some(Signature(rest))
    } else {
        return Err(Error::DecodeSigError);
    };
    Ok(
        Entry {
            log_id,
            is_end_of_feed: mark == 1,
            payload_hash,
            payload_size,
            author,
            seq_num,
            backlink,
            lipmaa_link,
            sig,
        },
    )
}

impl<'a> Entry<'a> {
    /// Reads an entry from `bytes`, which must hold the entry and nothing
    /// else.
    pub fn decode(bytes: &'a [u8]) -> (r: Result<Entry<'a>, Error>)
        ensures
            match parse_entry(bytes@) {
                Ok(e) => r matches Ok(entry) && entry@ == e,
                Err(e) => r matches Err(x) && x == e,
            },
    {
        decode(bytes)
    }
}

} // verus!
