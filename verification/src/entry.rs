//! The entry of a log, its validity and its bytes on the wire.
//!
//! An encoded entry is, in this order: one byte that says whether the feed
//! ends here, the author's public key, the number of the log, the sequence
//! number, for every entry but the first a link to the entry before it and
//! the skip link, then the size and the digest of the payload, and last the
//! signature over all that comes before it.
//!
//! Where the skip link points to the entry before, it says nothing that the
//! link to that entry does not say, and may be left out. Entries are
//! published without it. An entry that was written with it is read with it
//! and keeps it, so that its bytes, which its signature was made over, can be
//! had again from it.

use crate::keys::ed25519_key_valid;
use crate::keys::PUBLIC_KEY_LENGTH;
use crate::lipmaa::is_lipmaa_required_spec;
use crate::signature::OwnedSignature;
use crate::signature::Signature;
use crate::signature::ED25519_SIGNATURE_SIZE;
use crate::signature::MAX_SIGNATURE_SIZE;
use crate::varint;
use crate::varint::MAX_VARU64_SIZE;
use crate::yasmf_hash::hash_encoding;
use crate::yasmf_hash::parse_hash;
use crate::yasmf_hash::OwnedYasmfHash;
use crate::yasmf_hash::YasmfHash;
use crate::yasmf_hash::BLAKE3_HASH_SIZE;
use crate::yasmf_hash::MAX_YAMF_HASH_SIZE;
use vstd::prelude::*;

pub use crate::lipmaa::is_lipmaa_required;

pub mod batch;
pub mod decode;
pub mod encode;
pub mod publish;
pub mod publish_error;
pub mod roundtrip;
pub mod verify;

verus! {

/// The number of bytes that the end-of-feed mark takes.
pub const TAG_BYTE_LENGTH: usize = 1;

/// The greatest number of bytes that an encoded entry takes.
pub const MAX_ENTRY_SIZE: usize = 226;

/// The same bound, from the sizes of the fields.
pub const MAX_ENTRY_SIZE_: usize = TAG_BYTE_LENGTH + MAX_SIGNATURE_SIZE + PUBLIC_KEY_LENGTH
    + (MAX_YAMF_HASH_SIZE * 3) + (MAX_VARU64_SIZE * 3);

/// The bound that is written out is the sum of the greatest field sizes.
pub proof fn lemma_max_entry_size()
    ensures
        MAX_ENTRY_SIZE == MAX_ENTRY_SIZE_,
        MAX_ENTRY_SIZE == 1 + 32 + 64 + 3 * 34 + 3 * 9,
{
}

/// What an entry says, apart from where its bytes are kept.
pub struct EntryData {
    pub log_id: u64,
    pub is_end_of_feed: bool,
    pub payload_hash: Seq<u8>,
    pub payload_size: u64,
    pub author: Seq<u8>,
    pub seq_num: u64,
    pub backlink: Option<Seq<u8>>,
    pub lipmaa_link: Option<Seq<u8>>,
    pub sig: Option<Seq<u8>>,
}

impl EntryData {
    /// Sequence numbers start at 1; the first entry has no links; every other
    /// entry links to the one before it and, where the skip link points
    /// elsewhere, carries the skip link too.
    pub open spec fn links_valid(self) -> bool {
        &&& self.seq_num >= 1
        &&& self.seq_num == 1 ==> self.backlink is None && self.lipmaa_link is None
        &&& self.seq_num > 1 ==> self.backlink is Some
        &&& self.seq_num > 1 && is_lipmaa_required_spec(self.seq_num as nat)
            ==> self.lipmaa_link is Some
    }

    /// No skip link is kept where it would repeat the link to the entry
    /// before.
    pub open spec fn compact(self) -> bool {
        self.lipmaa_link is Some ==> self.seq_num > 1 && is_lipmaa_required_spec(
            self.seq_num as nat,
        )
    }

    /// No digest has more than 32 bytes and the signature has no more than
    /// 64: they fit into containers of these capacities.
    pub open spec fn sizes_fit(self) -> bool {
        &&& self.payload_hash.len() <= BLAKE3_HASH_SIZE
        &&& self.backlink matches Some(digest) ==> digest.len() <= BLAKE3_HASH_SIZE
        &&& self.lipmaa_link matches Some(digest) ==> digest.len() <= BLAKE3_HASH_SIZE
        &&& self.sig matches Some(sig) ==> sig.len() <= ED25519_SIGNATURE_SIZE
    }

    /// Every digest has 32 bytes, the author's key 32 and the signature 64.
    pub open spec fn sizes_valid(self) -> bool {
        &&& self.payload_hash.len() == BLAKE3_HASH_SIZE
        &&& self.author.len() == PUBLIC_KEY_LENGTH
        &&& self.backlink matches Some(digest) ==> digest.len() == BLAKE3_HASH_SIZE
        &&& self.lipmaa_link matches Some(digest) ==> digest.len() == BLAKE3_HASH_SIZE
        &&& self.sig matches Some(sig) ==> sig.len() == ED25519_SIGNATURE_SIZE
    }

    /// The entry can be encoded.
    pub open spec fn valid(self) -> bool {
        self.links_valid() && self.sizes_valid()
    }

    /// The same entry with no signature.
    pub open spec fn without_sig(self) -> EntryData {
        EntryData { sig: None, ..self }
    }
}

/// An entry whose digests and signature lie in a buffer that someone else
/// owns, most often the bytes it was decoded from.
#[derive(Debug, Clone, Copy)]
pub struct Entry<'a> {
    pub log_id: u64,
    pub is_end_of_feed: bool,
    pub payload_hash: YasmfHash<'a>,
    pub payload_size: u64,
    pub author: [u8; 32],
    pub seq_num: u64,
    pub backlink: Option<YasmfHash<'a>>,
    pub lipmaa_link: Option<YasmfHash<'a>>,
    pub sig: Option<Signature<'a>>,
}

/// An entry that holds its digests and signature itself.
#[derive(Debug)]
pub struct OwnedEntry {
    pub log_id: u64,
    pub is_end_of_feed: bool,
    pub payload_hash: OwnedYasmfHash,
    pub payload_size: u64,
    pub author: [u8; 32],
    pub seq_num: u64,
    pub backlink: Option<OwnedYasmfHash>,
    pub lipmaa_link: Option<OwnedYasmfHash>,
    pub sig: Option<OwnedSignature>,
}

impl<'a> View for Entry<'a> {
    type V = EntryData;

    open spec fn view(&self) -> EntryData {
        EntryData {
            log_id: self.log_id,
            is_end_of_feed: self.is_end_of_feed,
            payload_hash: self.payload_hash@,
            payload_size: self.payload_size,
            author: self.author@,
            seq_num: self.seq_num,
            backlink: match self.backlink {
                Some(digest) => Some(digest@),
                None => None,
            },
            lipmaa_link: match self.lipmaa_link {
                Some(digest) => Some(digest@),
                None => None,
            },
            sig: match self.sig {
                Some(sig) => Some(sig@),
                None => None,
            },
        }
    }
}

impl View for OwnedEntry {
    type V = EntryData;

    open spec fn view(&self) -> EntryData {
        EntryData {
            log_id: self.log_id,
            is_end_of_feed: self.is_end_of_feed,
            payload_hash: self.payload_hash@,
            payload_size: self.payload_size,
            author: self.author@,
            seq_num: self.seq_num,
            backlink: match self.backlink {
                Some(digest) => Some(digest@),
                None => None,
            },
            lipmaa_link: match self.lipmaa_link {
                Some(digest) => Some(digest@),
                None => None,
            },
            sig: match self.sig {
                Some(sig) => Some(sig@),
                None => None,
            },
        }
    }
}

/// The bytes of an encoded entry.
#[derive(Debug, Clone)]
pub struct EntryBytes(pub Vec<u8>);

impl View for EntryBytes {
    type V = Seq<u8>;

    open spec fn view(&self) -> Seq<u8> {
        self.0@
    }
}

/// A copy of `entry` that holds its digests and its signature itself, and so
/// outlives the buffer that `entry` points into.
pub fn into_owned(entry: &Entry) -> (r: OwnedEntry)
    requires
        entry@.sizes_fit(),
    ensures
        r@ == entry@,
{
    let sig = match &entry.sig {
        Some(sig) => Some(sig.to_owned()),
        None => None,
    };
    let payload_hash = entry.payload_hash.to_owned();
    let backlink = match &entry.backlink {
        Some(digest) => Some(digest.to_owned()),
        None => None,
    };
    let lipmaa_link = match &entry.lipmaa_link {
        Some(digest) => Some(digest.to_owned()),
        None => None,
    };
    OwnedEntry {
        is_end_of_feed: entry.is_end_of_feed,
        payload_size: entry.payload_size,
        seq_num: entry.seq_num,
        log_id: entry.log_id,
        payload_hash,
        lipmaa_link,
        backlink,
        author: entry.author,
        sig,
    }
}

impl Clone for OwnedEntry {
    fn clone(&self) -> (r: Self)
        ensures
            r@ == self@,
    {
        into_owned(&self.as_ref())
    }
}

impl OwnedEntry {
    /// The same entry, borrowing the digests and the signature.
    pub fn as_ref(&self) -> (r: Entry<'_>)
        ensures
            r@ == self@,
            r@.sizes_fit(),
    {
        Entry {
            log_id: self.log_id,
            is_end_of_feed: self.is_end_of_feed,
            payload_hash: self.payload_hash.as_ref(),
            payload_size: self.payload_size,
            author: self.author,
            seq_num: self.seq_num,
            backlink: match &self.backlink {
                Some(digest) => Some(digest.as_ref()),
                None => None,
            },
            lipmaa_link: match &self.lipmaa_link {
                Some(digest) => Some(digest.as_ref()),
                None => None,
            },
            sig: match &self.sig {
                Some(sig) => Some(sig.as_ref()),
                None => None,
            },
        }
    }
}

/// The size and digest of the payload, and the signature if there is one.
pub open spec fn payload_part(e: EntryData) -> Seq<u8> {
    varint::encoding(e.payload_size) + (hash_encoding(e.payload_hash) + match e.sig {
        Some(sig) => sig,
        None => Seq::empty(),
    })
}

/// The links of every entry but the first, and what follows them: the link
/// to the entry before and, where the entry has one, the skip link.
pub open spec fn links_part(e: EntryData) -> Seq<u8> {
    if e.seq_num > 1 {
        hash_encoding(e.backlink.unwrap()) + match e.lipmaa_link {
            Some(lipmaa_link) => hash_encoding(lipmaa_link) + payload_part(e),
            None => payload_part(e),
        }
    } else {
        payload_part(e)
    }
}

/// Whether `input` starts as an encoded digest does: with the number of the
/// algorithm and the length of its digests. The size of a payload followed by
/// the digest of the payload never starts so, since a size of 0 is followed
/// by the number of the algorithm, which is 0 and not 32.
pub open spec fn starts_with_digest(input: Seq<u8>) -> bool {
    input.len() >= 2 && input[0] == 0 && input[1] == 32
}

/// The number of the log and the sequence number, and what follows them.
pub open spec fn numbers_part(e: EntryData) -> Seq<u8> {
    varint::encoding(e.log_id) + (varint::encoding(e.seq_num) + links_part(e))
}

/// The bytes of an entry on the wire.
pub open spec fn entry_bytes(e: EntryData) -> Seq<u8> {
    seq![if e.is_end_of_feed { 1u8 } else { 0u8 }] + e.author + numbers_part(e)
}

/// The bytes that the signature of an entry is made over: those of the entry
/// with the signature left out.
pub open spec fn signing_bytes(e: EntryData) -> Seq<u8> {
    entry_bytes(e.without_sig())
}

/// Reads the size and digest of the payload, and takes what is left as the
/// signature.
pub open spec fn parse_payload(e: EntryData, input: Seq<u8>) -> Result<EntryData, decode::Error> {
    match varint::parse(input) {
        None => Err(decode::Error::DecodePayloadSizeError),
        Some((payload_size, width)) => match parse_hash(input.skip(width as int)) {
            Err(source) => Err(decode::Error::DecodePayloadHashError { source }),
            Ok((payload_hash, used)) => {
                let rest = input.skip(width as int).skip(used as int);
                if rest.len() == 0 {
                    Ok(EntryData { payload_size, payload_hash, sig: None, ..e })
                } else if rest.len() == ED25519_SIGNATURE_SIZE {
                    Ok(EntryData { payload_size, payload_hash, sig: Some(rest), ..e })
                } else {
                    Err(decode::Error::DecodeSigError)
                }
            },
        },
    }
}

/// Reads the links of every entry but the first, then the rest. A skip link
/// is read where the entry needs one, and also where one is there although
/// the entry does not need it.
#[verifier::opaque]
pub open spec fn parse_links(e: EntryData, input: Seq<u8>) -> Result<EntryData, decode::Error> {
    if e.seq_num > 1 {
        match parse_hash(input) {
            Err(source) => Err(decode::Error::DecodeBacklinkError { source }),
            Ok((backlink, used)) => {
                let rest = input.skip(used as int);
                let linked = EntryData { backlink: Some(backlink), ..e };
                if is_lipmaa_required_spec(e.seq_num as nat) || starts_with_digest(rest) {
                    match parse_hash(rest) {
                        Err(source) => Err(decode::Error::DecodeLipmaaError { source }),
                        Ok((lipmaa_link, used_again)) => parse_payload(
                            EntryData { lipmaa_link: Some(lipmaa_link), ..linked },
                            rest.skip(used_again as int),
                        ),
                    }
                } else {
                    parse_payload(linked, rest)
                }
            },
        }
    } else {
        parse_payload(e, input)
    }
}

/// Reads the number of the log and the sequence number, then the rest.
#[verifier::opaque]
pub open spec fn parse_numbers(e: EntryData, input: Seq<u8>) -> Result<EntryData, decode::Error> {
    match varint::parse(input) {
        None => Err(decode::Error::DecodeLogIdError),
        Some((log_id, width)) => match varint::parse(input.skip(width as int)) {
            None => Err(decode::Error::DecodeSeqError),
            Some((seq_num, seq_width)) => if seq_num == 0 {
                Err(decode::Error::DecodeSeqIsZero { seq_num })
            } else {
                parse_links(
                    EntryData { log_id, seq_num, ..e },
                    input.skip(width as int).skip(seq_width as int),
                )
            },
        },
    }
}

/// The entry that `input` is the encoding of, or what is wrong with `input`.
/// All of `input` is read: nothing may follow the entry.
pub open spec fn parse_entry(input: Seq<u8>) -> Result<EntryData, decode::Error> {
    if input.len() == 0 {
        Err(decode::Error::DecodeInputIsLengthZero)
    } else if input[0] > 1 {
        Err(decode::Error::DecodeIsEndOfFeedError)
    } else if input.len() < 1 + PUBLIC_KEY_LENGTH || !ed25519_key_valid(input.subrange(1, 33)) {
        Err(decode::Error::DecodeAuthorError)
    } else {
        parse_numbers(
            EntryData {
                log_id: 0,
                is_end_of_feed: input[0] == 1,
                payload_hash: Seq::empty(),
                payload_size: 0,
                author: input.subrange(1, 33),
                seq_num: 0,
                backlink: None,
                lipmaa_link: None,
                sig: None,
            },
            input.skip(33),
        )
    }
}

} // verus!
