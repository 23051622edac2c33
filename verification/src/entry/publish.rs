//! Making and signing the next entry of a feed.

use crate::bytes::slices_equal;
use crate::entry::decode;
use crate::entry::decode::decode;
use crate::entry::encode;
use crate::entry::encode::lemma_encode_check_is_validity;
use crate::entry::encode::lemma_entry_bytes_len;
use crate::entry::entry_bytes;
use crate::entry::parse_entry;
use crate::entry::roundtrip::lemma_decode_encode;
use crate::entry::roundtrip::lemma_encode_decode;
use crate::entry::verify::verify_outcome;
use crate::entry::Entry;
use crate::entry::EntryData;
use crate::keys::ed25519_key_valid;
use crate::keys::ed25519_signature;
use crate::keys::public_key_is_valid;
use crate::keys::sign_detached;
use crate::keys::Keypair;
use crate::lipmaa::is_lipmaa_required;
use crate::lipmaa::is_lipmaa_required_spec;
use crate::signature::Signature;
use crate::yasmf_hash::blake3_digest;
use crate::yasmf_hash::new_blake3;
use crate::yasmf_hash::OwnedYasmfHash;
use vstd::prelude::*;
use vstd::slice::slice_subrange;

verus! {

/// Why no entry was published.
#[allow(inconsistent_fields)]
#[derive(Debug, Clone, Copy, PartialEq, Eq, Structural)]
pub enum Error {
    PublishWithoutSecretKey,
    /// The public key of the key pair is no public key.
    PublishWithInvalidKeypair,
    /// An entry came before, and its bytes were not supplied.
    PublishWithoutBacklinkEntry,
    DecodeBacklinkEntry { source: decode::Error },
    PublishAfterEndOfFeed,
    PublishWithIncorrectBacklinkLogId,
    PublishKeypairDidNotMatchBacklinkPublicKey,
    /// The entry before has the greatest sequence number there is.
    PublishAfterLastSeqNum,
    PublishWithoutLipmaaEntry,
    DecodeLipmaaEntry { source: decode::Error },
    PublishWithIncorrectLipmaaLinkLogId,
    PublishKeypairDidNotMatchLipmaaLinkPublicKey,
    EncodeEntryToOutBuffer { source: encode::Error },
}

/// The sequence number and the two links of the next entry.
pub struct Links {
    pub seq_num: u64,
    pub backlink: Option<Seq<u8>>,
    pub lipmaa_link: Option<Seq<u8>>,
}

/// The skip link of entry `seq_num`, where it needs one of its own: the
/// digest of the entry supplied, which must decode and be of the same log and
/// author.
pub open spec fn next_lipmaa_link(
    public: Seq<u8>,
    log_id: u64,
    seq_num: u64,
    lipmaa: Option<Seq<u8>>,
) -> Result<Option<Seq<u8>>, Error> {
    if !is_lipmaa_required_spec(seq_num as nat) {
        Ok(None)
    } else {
        match lipmaa {
            None => Err(Error::PublishWithoutLipmaaEntry),
            Some(bytes) => match parse_entry(bytes) {
                Err(source) => Err(Error::DecodeLipmaaEntry { source }),
                Ok(target) => if target.log_id != log_id {
                    Err(Error::PublishWithIncorrectLipmaaLinkLogId)
                } else if target.author != public {
                    Err(Error::PublishKeypairDidNotMatchLipmaaLinkPublicKey)
                } else {
                    Ok(Some(blake3_digest(bytes)))
                },
            },
        }
    }
}

/// Where the next entry stands. With no entry before it, it is the first and
/// has no links. Otherwise the entry before must be supplied, decode, not end
/// the feed and be of the same log and author; the next entry then has the
/// sequence number after it and links to it.
pub open spec fn next_links(
    public: Seq<u8>,
    log_id: u64,
    has_previous: bool,
    lipmaa: Option<Seq<u8>>,
    backlink: Option<Seq<u8>>,
) -> Result<Links, Error> {
    if !has_previous {
        Ok(Links { seq_num: 1, backlink: None, lipmaa_link: None })
    } else {
        match backlink {
            None => Err(Error::PublishWithoutBacklinkEntry),
            Some(bytes) => match parse_entry(bytes) {
                Err(source) => Err(Error::DecodeBacklinkEntry { source }),
                Ok(previous) => if previous.is_end_of_feed {
                    Err(Error::PublishAfterEndOfFeed)
                } else if previous.log_id != log_id {
                    Err(Error::PublishWithIncorrectBacklinkLogId)
                } else if previous.author != public {
                    Err(Error::PublishKeypairDidNotMatchBacklinkPublicKey)
                } else if previous.seq_num == u64::MAX {
                    Err(Error::PublishAfterLastSeqNum)
                } else {
                    let seq_num = (previous.seq_num + 1) as u64;
                    match next_lipmaa_link(public, log_id, seq_num, lipmaa) {
                        Err(error) => Err(error),
                        Ok(lipmaa_link) => Ok(
                            Links { seq_num, backlink: Some(blake3_digest(bytes)), lipmaa_link },
                        ),
                    }
                },
            },
        }
    }
}

/// The entry that is published, signature included, or why none is.
pub open spec fn published_entry(
    key_pair: Keypair,
    log_id: u64,
    payload: Seq<u8>,
    is_end_of_feed: bool,
    has_previous: bool,
    lipmaa: Option<Seq<u8>>,
    backlink: Option<Seq<u8>>,
) -> Result<EntryData, Error> {
    match key_pair.secret {
        None => Err(Error::PublishWithoutSecretKey),
        Some(secret) => if !ed25519_key_valid(key_pair.public@) {
            Err(Error::PublishWithInvalidKeypair)
        } else {
            match next_links(key_pair.public@, log_id, has_previous, lipmaa, backlink) {
                Err(error) => Err(error),
                Ok(links) => {
                    let unsigned = EntryData {
                        log_id,
                        is_end_of_feed,
                        payload_hash: blake3_digest(payload),
                        payload_size: payload.len() as u64,
                        author: key_pair.public@,
                        seq_num: links.seq_num,
                        backlink: links.backlink,
                        lipmaa_link: links.lipmaa_link,
                        sig: None,
                    };
                    Ok(
                        EntryData {
                            sig: Some(
                                ed25519_signature(
                                    secret@,
                                    key_pair.public@,
                                    entry_bytes(unsigned),
                                ),
                            ),
                            ..unsigned
                        },
                    )
                },
            }
        },
    }
}

/// Nothing is published after an entry that ended the feed.
pub proof fn lemma_publish_after_end_of_feed(
    key_pair: Keypair,
    log_id: u64,
    payload: Seq<u8>,
    is_end_of_feed: bool,
    lipmaa: Option<Seq<u8>>,
    previous_bytes: Seq<u8>,
)
    requires
        key_pair.secret is Some,
        ed25519_key_valid(key_pair.public@),
        parse_entry(previous_bytes) is Ok,
        parse_entry(previous_bytes).unwrap().is_end_of_feed,
    ensures
        published_entry(
            key_pair,
            log_id,
            payload,
            is_end_of_feed,
            true,
            lipmaa,
            Some(previous_bytes),
        ) == Err::<EntryData, Error>(Error::PublishAfterEndOfFeed),
{
}

/// Nothing is published into one log after an entry of another.
pub proof fn lemma_publish_with_other_log_id(
    key_pair: Keypair,
    log_id: u64,
    payload: Seq<u8>,
    is_end_of_feed: bool,
    lipmaa: Option<Seq<u8>>,
    previous_bytes: Seq<u8>,
)
    requires
        key_pair.secret is Some,
        ed25519_key_valid(key_pair.public@),
        parse_entry(previous_bytes) is Ok,
        !parse_entry(previous_bytes).unwrap().is_end_of_feed,
        parse_entry(previous_bytes).unwrap().log_id != log_id,
    ensures
        published_entry(
            key_pair,
            log_id,
            payload,
            is_end_of_feed,
            true,
            lipmaa,
            Some(previous_bytes),
        ) == Err::<EntryData, Error>(Error::PublishWithIncorrectBacklinkLogId),
{
}

/// An entry that is published has the sequence number after that of the
/// entry before it, or 1 where none came before; so the entries of a feed
/// that are published one after the other are numbered from 1 without a gap.
pub proof fn lemma_published_seq_num(
    key_pair: Keypair,
    log_id: u64,
    payload: Seq<u8>,
    is_end_of_feed: bool,
    has_previous: bool,
    lipmaa: Option<Seq<u8>>,
    backlink: Option<Seq<u8>>,
)
    requires
        published_entry(key_pair, log_id, payload, is_end_of_feed, has_previous, lipmaa, backlink)
            is Ok,
    ensures
        published_entry(
            key_pair,
            log_id,
            payload,
            is_end_of_feed,
            has_previous,
            lipmaa,
            backlink,
        ).unwrap().seq_num == if has_previous {
            parse_entry(backlink.unwrap()).unwrap().seq_num + 1
        } else {
            1
        },
{
}

/// An entry that is published after another links to the bytes it was made
/// from: its backlink is the digest of the entry before it and, where it
/// needs a skip link of its own, its skip link is the digest of the entry
/// supplied for that.
pub proof fn lemma_published_links(
    key_pair: Keypair,
    log_id: u64,
    payload: Seq<u8>,
    is_end_of_feed: bool,
    lipmaa: Option<Seq<u8>>,
    backlink: Option<Seq<u8>>,
)
    requires
        published_entry(key_pair, log_id, payload, is_end_of_feed, true, lipmaa, backlink) is Ok,
    ensures
        ({
            let e = published_entry(
                key_pair,
                log_id,
                payload,
                is_end_of_feed,
                true,
                lipmaa,
                backlink,
            ).unwrap();
            &&& backlink is Some
            &&& e.backlink == Some(blake3_digest(backlink.unwrap()))
            &&& is_lipmaa_required_spec(e.seq_num as nat) ==> lipmaa is Some && e.lipmaa_link
                == Some(blake3_digest(lipmaa.unwrap()))
            &&& !is_lipmaa_required_spec(e.seq_num as nat) ==> e.lipmaa_link is None
        }),
{
}

/// An entry is published with a skip link only where its skip link points
/// elsewhere than to the entry before it.
pub proof fn lemma_published_entry_is_compact(
    key_pair: Keypair,
    log_id: u64,
    payload: Seq<u8>,
    is_end_of_feed: bool,
    has_previous: bool,
    lipmaa: Option<Seq<u8>>,
    backlink: Option<Seq<u8>>,
)
    requires
        published_entry(key_pair, log_id, payload, is_end_of_feed, has_previous, lipmaa, backlink)
            is Ok,
    ensures
        published_entry(
            key_pair,
            log_id,
            payload,
            is_end_of_feed,
            has_previous,
            lipmaa,
            backlink,
        ).unwrap().compact(),
        published_entry(
            key_pair,
            log_id,
            payload,
            is_end_of_feed,
            has_previous,
            lipmaa,
            backlink,
        ).unwrap().links_valid(),
{
    if has_previous {
        lemma_encode_decode(backlink.unwrap());
    }
}

/// The seq_num and links of the next entry, with the digests computed.
struct NextLinks {
    seq_num: u64,
    backlink: Option<OwnedYasmfHash>,
    lipmaa_link: Option<OwnedYasmfHash>,
}

impl NextLinks {
    spec fn digests_sized(&self) -> bool {
        &&& self.backlink matches Some(digest) ==> digest@.len() == 32
        &&& self.lipmaa_link matches Some(digest) ==> digest@.len() == 32
    }

    spec fn view(&self) -> Links {
        Links {
            seq_num: self.seq_num,
            backlink: match self.backlink {
                Some(digest) => Some(digest@),
                None => None,
            },
            lipmaa_link: match self.lipmaa_link {
                Some(digest) => Some(digest@),
                None => None,
            },
        }
    }
}

fn find_lipmaa_link(public: &[u8; 32], log_id: u64, seq_num: u64, lipmaa: Option<&[u8]>) -> (r:
    Result<Option<OwnedYasmfHash>, Error>)
    requires
        seq_num >= 1,
    ensures
        match next_lipmaa_link(public@, log_id, seq_num, crate::entry::verify::bytes_view(lipmaa)) {
            Err(error) => r == Err::<Option<OwnedYasmfHash>, Error>(error),
            Ok(link) => r matches Ok(found) && match link {
                None => found is None,
                Some(digest) => found matches Some(d) && d@ == digest && d@.len() == 32,
            },
        },
{
    if !is_lipmaa_required(seq_num) {
        return Ok(None);
    }
    let bytes = match lipmaa {
        None => {
            return Err(Error::PublishWithoutLipmaaEntry);
        },
        Some(bytes) => bytes,
    };
    let target = match decode(bytes) {
        Err(source) => {
            return Err(Error::DecodeLipmaaEntry { source });
        },
        Ok(target) => target,
    };
    if target.log_id != log_id {
        return Err(Error::PublishWithIncorrectLipmaaLinkLogId);
    }
    if !slices_equal(target.author.as_slice(), public.as_slice()) {
        return Err(Error::PublishKeypairDidNotMatchLipmaaLinkPublicKey);
    }
    Ok(Some(new_blake3(bytes)))
}

fn find_links(
    public: &[u8; 32],
    log_id: u64,
    has_previous: bool,
    lipmaa: Option<&[u8]>,
    backlink: Option<&[u8]>,
) -> (r: Result<NextLinks, Error>)
    ensures
        match next_links(
            public@,
            log_id,
            has_previous,
            crate::entry::verify::bytes_view(lipmaa),
            crate::entry::verify::bytes_view(backlink),
        ) {
            Err(error) => r matches Err(e) && e == error,
            Ok(links) => r matches Ok(found) && found.view() == links && found.digests_sized(),
        },
{
    if !has_previous {
        return Ok(NextLinks { seq_num: 1, backlink: None, lipmaa_link: None });
    }
    let bytes = match backlink {
        None => {
            return Err(Error::PublishWithoutBacklinkEntry);
        },
        Some(bytes) => bytes,
    };
    let previous = match decode(bytes) {
        Err(source) => {
            return Err(Error::DecodeBacklinkEntry { source });
        },
        Ok(previous) => previous,
    };
    if previous.is_end_of_feed {
        return Err(Error::PublishAfterEndOfFeed);
    }
    if previous.log_id != log_id {
        return Err(Error::PublishWithIncorrectBacklinkLogId);
    }
    if !slices_equal(previous.author.as_slice(), public.as_slice()) {
        return Err(Error::PublishKeypairDidNotMatchBacklinkPublicKey);
    }
    if previous.seq_num == u64::MAX {
        return Err(Error::PublishAfterLastSeqNum);
    }
    let seq_num = previous.seq_num + 1;
    let lipmaa_link = match find_lipmaa_link(public, log_id, seq_num, lipmaa) {
        Err(error) => {
            return Err(error);
        },
        Ok(link) => link,
    };
    Ok(NextLinks { seq_num, backlink: Some(new_blake3(bytes)), lipmaa_link })
}

/// The entry that `next_links` describes can be encoded, keeps no skip link
/// that it does not need, and passes every check of its links against the
/// entries it was made from.
proof fn lemma_published_entry_verifies(
    key_pair: Keypair,
    log_id: u64,
    payload: Seq<u8>,
    is_end_of_feed: bool,
    has_previous: bool,
    lipmaa: Option<Seq<u8>>,
    backlink: Option<Seq<u8>>,
)
    requires
        published_entry(key_pair, log_id, payload, is_end_of_feed, has_previous, lipmaa, backlink)
            is Ok,
        published_entry(
            key_pair,
            log_id,
            payload,
            is_end_of_feed,
            has_previous,
            lipmaa,
            backlink,
        ).unwrap().sizes_valid(),
        payload.len() <= u64::MAX,
    ensures
        ({
            let e = published_entry(
                key_pair,
                log_id,
                payload,
                is_end_of_feed,
                has_previous,
                lipmaa,
                backlink,
            ).unwrap();
            &&& e.valid()
            &&& e.compact()
            &&& e.without_sig().valid()
            &&& ed25519_key_valid(e.author)
            &&& parse_entry(entry_bytes(e)) == Ok::<EntryData, decode::Error>(e)
            &&& crate::entry::verify::links_and_payload_outcome(
                e,
                crate::entry::verify::with_digest(Some(payload)),
                crate::entry::verify::with_digest(
                    if has_previous {
                        lipmaa
                    } else {
                        None
                    },
                ),
                crate::entry::verify::with_digest(
                    if has_previous {
                        backlink
                    } else {
                        None
                    },
                ),
            ) is Ok
        }),
{
    let e = published_entry(
        key_pair,
        log_id,
        payload,
        is_end_of_feed,
        has_previous,
        lipmaa,
        backlink,
    ).unwrap();
    if has_previous {
        lemma_encode_decode(backlink.unwrap());
        if is_lipmaa_required_spec(e.seq_num as nat) {
            lemma_encode_decode(lipmaa.unwrap());
        }
    }
    lemma_decode_encode(e);
}

/// Makes the next entry of a feed, signs it and writes it at the start of
/// `out`; returns the number of bytes written.
///
/// `last_seq_num` says whether an entry came before this one. If one did,
/// `backlink_bytes` holds it, and the new entry gets the sequence number
/// after the one read from it. `lipmaa_entry_bytes` holds the entry that the
/// skip link of the new entry points to; it is looked at only where the new
/// entry needs a skip link of its own.
///
/// An entry that was written decodes to the entry described, and where the
/// public key of the key pair belongs to its secret key it passes `verify`
/// with the payload and the entries it was made from.
pub fn publish(
    out: &mut [u8],
    key_pair: &Keypair,
    log_id: u64,
    payload: &[u8],
    is_end_of_feed: bool,
    last_seq_num: Option<u64>,
    lipmaa_entry_bytes: Option<&[u8]>,
    backlink_bytes: Option<&[u8]>,
) -> (r: Result<usize, Error>)
    ensures
        match published_entry(
            *key_pair,
            log_id,
            payload@,
            is_end_of_feed,
            last_seq_num is Some,
            crate::entry::verify::bytes_view(lipmaa_entry_bytes),
            crate::entry::verify::bytes_view(backlink_bytes),
        ) {
            Err(error) => r == Err::<usize, Error>(error) && final(out)@ == old(out)@,
            Ok(e) => if old(out)@.len() < entry_bytes(e).len() {
                r == Err::<usize, Error>(
                    Error::EncodeEntryToOutBuffer { source: encode::Error::EncodeBufferLength },
                ) && final(out)@ == old(out)@
            } else {
                &&& r == Ok::<usize, Error>(entry_bytes(e).len() as usize)
                &&& final(out)@ == entry_bytes(e) + old(out)@.skip(entry_bytes(e).len() as int)
                &&& parse_entry(entry_bytes(e)) == Ok::<EntryData, decode::Error>(e)
                &&& key_pair.consistent() ==> verify_outcome(
                    entry_bytes(e),
                    Some(payload@),
                    if last_seq_num is Some {
                        crate::entry::verify::bytes_view(lipmaa_entry_bytes)
                    } else {
                        None
                    },
                    if last_seq_num is Some {
                        crate::entry::verify::bytes_view(backlink_bytes)
                    } else {
                        None
                    },
                ) is Ok
            },
        },
{
    let secret = match key_pair.secret {
        None => {
            return Err(Error::PublishWithoutSecretKey);
        },
        Some(secret) => secret,
    };
    if !public_key_is_valid(&key_pair.public) {
        return Err(Error::PublishWithInvalidKeypair);
    }
    let links = match find_links(
        &key_pair.public,
        log_id,
        last_seq_num.is_some(),
        lipmaa_entry_bytes,
        backlink_bytes,
    ) {
        Err(error) => {
            return Err(error);
        },
        Ok(links) => links,
    };
    let payload_hash = new_blake3(payload);
    let unsigned = Entry {
        log_id,
        is_end_of_feed,
        payload_hash: payload_hash.as_ref(),
        payload_size: payload.len() as u64,
        author: key_pair.public,
        seq_num: links.seq_num,
        backlink: match &links.backlink {
            Some(digest) => Some(digest.as_ref()),
            None => None,
        },
        lipmaa_link: match &links.lipmaa_link {
            Some(digest) => Some(digest.as_ref()),
            None => None,
        },
        sig: None,
    };
    proof {
        assert(unsigned@.without_sig() == unsigned@);
        if last_seq_num is Some {
            lemma_encode_decode(backlink_bytes.unwrap()@);
        }
        assert(unsigned@.valid());
        lemma_encode_check_is_validity(unsigned@);
        lemma_entry_bytes_len(unsigned@);
    }
    let mut scratch = [0u8; 512];
    let size = match unsigned.encode_for_signing(&mut scratch) {
        Ok(size) => size,
        Err(source) => {
            return Err(Error::EncodeEntryToOutBuffer { source });
        },
    };
    let message = slice_subrange(scratch.as_slice(), 0, size);
    proof {
        assert(message@ =~= entry_bytes(unsigned@));
    }
    let sig = sign_detached(&secret, &key_pair.public, message);
    let signed = Entry { sig: Some(Signature(sig.as_slice())), ..unsigned };
    proof {
        assert(signed@.without_sig() == unsigned@);
        assert(signed@ == published_entry(
            *key_pair,
            log_id,
            payload@,
            is_end_of_feed,
            last_seq_num is Some,
            crate::entry::verify::bytes_view(lipmaa_entry_bytes),
            crate::entry::verify::bytes_view(backlink_bytes),
        ).unwrap());
        lemma_published_entry_verifies(
            *key_pair,
            log_id,
            payload@,
            is_end_of_feed,
            last_seq_num is Some,
            crate::entry::verify::bytes_view(lipmaa_entry_bytes),
            crate::entry::verify::bytes_view(backlink_bytes),
        );
        lemma_encode_check_is_validity(signed@);
    }
    match signed.encode(out) {
        Ok(written) => Ok(written),
        Err(source) => Err(Error::EncodeEntryToOutBuffer { source }),
    }
}

} // verus!
