//! Checking an entry against its payload, the entries it links to and its
//! author's signature.

use crate::bytes::slices_equal;
use crate::entry::decode;
use crate::entry::decode::decode;
use crate::entry::encode::encode_check;
use crate::entry::parse_entry;
use crate::entry::signing_bytes;
use crate::entry::Entry;
use crate::entry::EntryData;
use crate::keys::ed25519_key_valid;
use crate::keys::ed25519_verifies;
use crate::keys::public_key_is_valid;
use crate::keys::signature_is_well_formed;
use crate::keys::verify_detached;
use crate::keys::well_formed_signature;
use crate::lipmaa::is_lipmaa_required;
use crate::lipmaa::is_lipmaa_required_spec;
use crate::yasmf_hash::blake3_digest;
use crate::yasmf_hash::new_blake3;
use crate::yasmf_hash::OwnedYasmfHash;
use vstd::prelude::*;
use vstd::slice::slice_subrange;

verus! {

/// Why an entry is not accepted.
#[allow(inconsistent_fields)]
#[derive(Debug, Clone, Copy, PartialEq, Eq, Structural)]
pub enum Error {
    /// The bytes of the entry itself do not decode.
    DecodeEntry { source: decode::Error },
    PayloadHashDidNotMatch,
    PayloadLengthDidNotMatch { actual: usize, expected: u64 },
    /// The skip link of the entry points elsewhere than to the entry before
    /// it, and the entry it points to was not supplied.
    LipmaaLinkRequired,
    LipmaaHashDoesNotMatch,
    DecodeLipmaaEntry { source: decode::Error },
    LipmaaLogIdDoesNotMatch { expected: u64, actual: u64 },
    LipmaaAuthorDoesNotMatch,
    BacklinkHashDoesNotMatch,
    DecodeBacklinkEntry { source: decode::Error },
    BacklinkLogIdDoesNotMatch { expected: u64, actual: u64 },
    BacklinkAuthorDoesNotMatch,
    /// The entry before this one ended the feed.
    PublishedAfterEndOfFeed,
    /// The entry has no signature, or one that has not the shape of a
    /// signature.
    DecodeSigError,
    InvalidSignature,
    /// The links of the entry and the entries supplied do not fit its
    /// sequence number.
    UnknownError,
}

/// Some bytes together with their digest.
pub open spec fn with_digest(bytes: Option<Seq<u8>>) -> Option<(Seq<u8>, Seq<u8>)> {
    match bytes {
        Some(bytes) => Some((bytes, blake3_digest(bytes))),
        None => None,
    }
}

/// The payload, where it is supplied, has the digest and the size that the
/// entry states. The digest is compared first.
pub open spec fn payload_outcome(e: EntryData, payload: Option<(Seq<u8>, Seq<u8>)>) -> Result<
    (),
    Error,
> {
    match payload {
        None => Ok(()),
        Some((bytes, digest)) => if digest != e.payload_hash {
            Err(Error::PayloadHashDidNotMatch)
        } else if bytes.len() != e.payload_size {
            Err(
                Error::PayloadLengthDidNotMatch {
                    actual: bytes.len() as usize,
                    expected: e.payload_size,
                },
            )
        } else {
            Ok(())
        },
    }
}

/// The entry that the skip link points to, where the entry needs one of its
/// own, is supplied, has the digest that the entry states, decodes, and is of
/// the same log and author. The first entry has no skip link and none may be
/// supplied.
pub open spec fn lipmaa_outcome(e: EntryData, lipmaa: Option<(Seq<u8>, Seq<u8>)>) -> Result<
    (),
    Error,
> {
    if e.seq_num == 0 {
        Err(Error::UnknownError)
    } else if e.seq_num == 1 {
        if lipmaa is None && e.lipmaa_link is None {
            Ok(())
        } else {
            Err(Error::UnknownError)
        }
    } else if !is_lipmaa_required_spec(e.seq_num as nat) {
        Ok(())
    } else {
        match lipmaa {
            None => Err(Error::LipmaaLinkRequired),
            Some((bytes, digest)) => match e.lipmaa_link {
                None => Err(Error::UnknownError),
                Some(link) => if digest != link {
                    Err(Error::LipmaaHashDoesNotMatch)
                } else {
                    match parse_entry(bytes) {
                        Err(source) => Err(Error::DecodeLipmaaEntry { source }),
                        Ok(target) => if e.log_id != target.log_id {
                            Err(
                                Error::LipmaaLogIdDoesNotMatch {
                                    expected: e.log_id,
                                    actual: target.log_id,
                                },
                            )
                        } else if e.author != target.author {
                            Err(Error::LipmaaAuthorDoesNotMatch)
                        } else {
                            Ok(())
                        },
                    }
                },
            },
        }
    }
}

/// The entry before this one, where it is supplied, has the digest that the
/// entry states, decodes, is of the same log and author, and did not end the
/// feed. The first entry has no entry before it; any other states a link to
/// it, whether or not that entry is supplied.
pub open spec fn backlink_outcome(e: EntryData, backlink: Option<(Seq<u8>, Seq<u8>)>) -> Result<
    (),
    Error,
> {
    if e.seq_num == 0 {
        Err(Error::UnknownError)
    } else if e.seq_num == 1 {
        if e.backlink is None {
            Ok(())
        } else {
            Err(Error::UnknownError)
        }
    } else {
        match e.backlink {
            None => Err(Error::UnknownError),
            Some(link) => match backlink {
                None => Ok(()),
                Some((bytes, digest)) => if digest != link {
                    Err(Error::BacklinkHashDoesNotMatch)
                } else {
                    match parse_entry(bytes) {
                        Err(source) => Err(Error::DecodeBacklinkEntry { source }),
                        Ok(target) => if e.log_id != target.log_id {
                            Err(
                                Error::BacklinkLogIdDoesNotMatch {
                                    expected: e.log_id,
                                    actual: target.log_id,
                                },
                            )
                        } else if e.author != target.author {
                            Err(Error::BacklinkAuthorDoesNotMatch)
                        } else if target.is_end_of_feed {
                            Err(Error::PublishedAfterEndOfFeed)
                        } else {
                            Ok(())
                        },
                    }
                },
            },
        }
    }
}

/// The payload is checked first, then the skip link, then the link to the
/// entry before; the first failure is the outcome.
pub open spec fn links_and_payload_outcome(
    e: EntryData,
    payload: Option<(Seq<u8>, Seq<u8>)>,
    lipmaa: Option<(Seq<u8>, Seq<u8>)>,
    backlink: Option<(Seq<u8>, Seq<u8>)>,
) -> Result<(), Error> {
    if payload_outcome(e, payload) is Err {
        payload_outcome(e, payload)
    } else if lipmaa_outcome(e, lipmaa) is Err {
        lipmaa_outcome(e, lipmaa)
    } else {
        backlink_outcome(e, backlink)
    }
}

/// The entry carries a signature of the right shape that its author's key
/// accepts for the bytes of the entry without the signature.
pub open spec fn signature_outcome(e: EntryData) -> Result<(), Error> {
    match e.sig {
        None => Err(Error::DecodeSigError),
        Some(sig) => if !well_formed_signature(sig) {
            Err(Error::DecodeSigError)
        } else if !ed25519_key_valid(e.author) || !ed25519_verifies(
            e.author,
            signing_bytes(e),
            sig,
        ) {
            Err(Error::InvalidSignature)
        } else {
            Ok(())
        },
    }
}

/// What verifying `entry_bytes` comes to: the bytes decode, the payload and
/// the linked entries fit, and the signature holds.
pub open spec fn verify_outcome(
    entry_bytes: Seq<u8>,
    payload: Option<Seq<u8>>,
    lipmaa_link: Option<Seq<u8>>,
    backlink: Option<Seq<u8>>,
) -> Result<(), Error> {
    match parse_entry(entry_bytes) {
        Err(source) => Err(Error::DecodeEntry { source }),
        Ok(e) => if links_and_payload_outcome(
            e,
            with_digest(payload),
            with_digest(lipmaa_link),
            with_digest(backlink),
        ) is Err {
            links_and_payload_outcome(
                e,
                with_digest(payload),
                with_digest(lipmaa_link),
                with_digest(backlink),
            )
        } else {
            signature_outcome(e)
        },
    }
}

/// An entry whose payload is supplied with the right digest and another
/// length than the entry states is refused for that length.
pub proof fn lemma_payload_length_is_checked(
    entry_bytes: Seq<u8>,
    payload: Seq<u8>,
    lipmaa_link: Option<Seq<u8>>,
    backlink: Option<Seq<u8>>,
)
    requires
        parse_entry(entry_bytes) is Ok,
        blake3_digest(payload) == parse_entry(entry_bytes).unwrap().payload_hash,
        payload.len() != parse_entry(entry_bytes).unwrap().payload_size,
    ensures
        verify_outcome(entry_bytes, Some(payload), lipmaa_link, backlink) == Err::<(), Error>(
            Error::PayloadLengthDidNotMatch {
                actual: payload.len() as usize,
                expected: parse_entry(entry_bytes).unwrap().payload_size,
            },
        ),
{
}

/// An entry whose link to the entry before it is right is refused where that
/// entry, of the same log and author, ended the feed.
pub proof fn lemma_nothing_follows_the_end_of_a_feed(
    e: EntryData,
    previous_bytes: Seq<u8>,
    digest: Seq<u8>,
)
    requires
        e.seq_num > 1,
        e.backlink == Some(digest),
        parse_entry(previous_bytes) is Ok,
        parse_entry(previous_bytes).unwrap().is_end_of_feed,
        parse_entry(previous_bytes).unwrap().log_id == e.log_id,
        parse_entry(previous_bytes).unwrap().author == e.author,
    ensures
        backlink_outcome(e, Some((previous_bytes, digest))) == Err::<(), Error>(
            Error::PublishedAfterEndOfFeed,
        ),
{
}

/// An entry that is accepted decodes and carries a signature that its
/// author's key accepts for the bytes of the entry without the signature.
pub proof fn lemma_accepted_entry_is_signed(
    entry_bytes: Seq<u8>,
    payload: Option<Seq<u8>>,
    lipmaa_link: Option<Seq<u8>>,
    backlink: Option<Seq<u8>>,
)
    requires
        verify_outcome(entry_bytes, payload, lipmaa_link, backlink) is Ok,
    ensures
        parse_entry(entry_bytes) is Ok,
        parse_entry(entry_bytes).unwrap().sig is Some,
        ed25519_verifies(
            parse_entry(entry_bytes).unwrap().author,
            signing_bytes(parse_entry(entry_bytes).unwrap()),
            parse_entry(entry_bytes).unwrap().sig.unwrap(),
        ),
{
}

/// Where the bytes of an accepted entry are changed and the changed bytes are
/// accepted too, the author's key has accepted other signed bytes or another
/// signature: the two entries differ in the bytes that are signed or in the
/// signature. Whether a key accepts such a pair without its secret having
/// signed it is a matter of the signature scheme.
pub proof fn lemma_changed_entry_needs_another_signature(
    entry_bytes: Seq<u8>,
    changed_bytes: Seq<u8>,
    payload: Option<Seq<u8>>,
    lipmaa_link: Option<Seq<u8>>,
    backlink: Option<Seq<u8>>,
)
    requires
        verify_outcome(entry_bytes, payload, lipmaa_link, backlink) is Ok,
        verify_outcome(changed_bytes, payload, lipmaa_link, backlink) is Ok,
        changed_bytes != entry_bytes,
    ensures
        ({
            let e = parse_entry(entry_bytes).unwrap();
            let c = parse_entry(changed_bytes).unwrap();
            &&& ed25519_verifies(c.author, signing_bytes(c), c.sig.unwrap())
            &&& signing_bytes(c) != signing_bytes(e) || c.sig != e.sig
        }),
{
    lemma_accepted_entry_is_signed(entry_bytes, payload, lipmaa_link, backlink);
    lemma_accepted_entry_is_signed(changed_bytes, payload, lipmaa_link, backlink);
    crate::entry::roundtrip::lemma_changed_bytes_change_what_is_signed(entry_bytes, changed_bytes);
}

/// Bytes and their digest, as the checks see them.
pub open spec fn pair_view(pair: Option<(&[u8], OwnedYasmfHash)>) -> Option<(Seq<u8>, Seq<u8>)> {
    match pair {
        Some((bytes, digest)) => Some((bytes@, digest@)),
        None => None,
    }
}

fn check_payload(entry: &Entry, payload: Option<(&[u8], OwnedYasmfHash)>) -> (r: Result<(), Error>)
    ensures
        r == payload_outcome(entry@, pair_view(payload)),
{
    match payload {
        None => Ok(()),
        Some((bytes, digest)) => {
            if !digest.as_ref().matches(&entry.payload_hash) {
                Err(Error::PayloadHashDidNotMatch)
            } else if bytes.len() as u64 != entry.payload_size {
                Err(
                    Error::PayloadLengthDidNotMatch {
                        actual: bytes.len(),
                        expected: entry.payload_size,
                    },
                )
            } else {
                Ok(())
            }
        },
    }
}

fn check_lipmaa(entry: &Entry, lipmaa: Option<(&[u8], OwnedYasmfHash)>) -> (r: Result<(), Error>)
    ensures
        r == lipmaa_outcome(entry@, pair_view(lipmaa)),
{
    if entry.seq_num == 0 {
        return Err(Error::UnknownError);
    }
    if entry.seq_num == 1 {
        if lipmaa.is_none() && entry.lipmaa_link.is_none() {
            return Ok(());
        }
        return Err(Error::UnknownError);
    }
    if !is_lipmaa_required(entry.seq_num) {
        return Ok(());
    }
    let (bytes, digest) = match lipmaa {
        None => {
            return Err(Error::LipmaaLinkRequired);
        },
        Some(pair) => pair,
    };
    let link = match &entry.lipmaa_link {
        None => {
            return Err(Error::UnknownError);
        },
        Some(link) => link,
    };
    if !digest.as_ref().matches(link) {
        return Err(Error::LipmaaHashDoesNotMatch);
    }
    let target = match decode(bytes) {
        Err(source) => {
            return Err(Error::DecodeLipmaaEntry { source });
        },
        Ok(target) => target,
    };
    if entry.log_id != target.log_id {
        return Err(
            Error::LipmaaLogIdDoesNotMatch { expected: entry.log_id, actual: target.log_id },
        );
    }
    if !slices_equal(entry.author.as_slice(), target.author.as_slice()) {
        return Err(Error::LipmaaAuthorDoesNotMatch);
    }
    Ok(())
}

fn check_backlink(entry: &Entry, backlink: Option<(&[u8], OwnedYasmfHash)>) -> (r: Result<
    (),
    Error,
>)
    ensures
        r == backlink_outcome(entry@, pair_view(backlink)),
{
    if entry.seq_num == 0 {
        return Err(Error::UnknownError);
    }
    if entry.seq_num == 1 {
        if entry.backlink.is_none() {
            return Ok(());
        }
        return Err(Error::UnknownError);
    }
    let link = match &entry.backlink {
        None => {
            return Err(Error::UnknownError);
        },
        Some(link) => link,
    };
    let (bytes, digest) = match backlink {
        None => {
            return Ok(());
        },
        Some(pair) => pair,
    };
    if !digest.as_ref().matches(link) {
        return Err(Error::BacklinkHashDoesNotMatch);
    }
    let target = match decode(bytes) {
        Err(source) => {
            return Err(Error::DecodeBacklinkEntry { source });
        },
        Ok(target) => target,
    };
    if entry.log_id != target.log_id {
        return Err(
            Error::BacklinkLogIdDoesNotMatch { expected: entry.log_id, actual: target.log_id },
        );
    }
    if !slices_equal(entry.author.as_slice(), target.author.as_slice()) {
        return Err(Error::BacklinkAuthorDoesNotMatch);
    }
    if target.is_end_of_feed {
        return Err(Error::PublishedAfterEndOfFeed);
    }
    Ok(())
}

/// Checks an entry against its payload and the entries it links to, each
/// supplied with its digest or left out.
pub fn verify_links_and_payload(
    entry: &Entry,
    payload: Option<(&[u8], OwnedYasmfHash)>,
    lipmaa_link: Option<(&[u8], OwnedYasmfHash)>,
    backlink: Option<(&[u8], OwnedYasmfHash)>,
) -> (r: Result<(), Error>)
    ensures
        r == links_and_payload_outcome(
            entry@,
            pair_view(payload),
            pair_view(lipmaa_link),
            pair_view(backlink),
        ),
{
    match check_payload(entry, payload) {
        Err(error) => {
            return Err(error);
        },
        Ok(_) => {},
    }
    match check_lipmaa(entry, lipmaa_link) {
        Err(error) => {
            return Err(error);
        },
        Ok(_) => {},
    }
    check_backlink(entry, backlink)
}

impl<'a> Entry<'a> {
    /// Checks the signature of the entry against its author's key.
    pub fn verify_signature(&self) -> (r: Result<(), Error>)
        requires
            encode_check(self@.without_sig()) is Ok,
        ensures
            r == signature_outcome(self@),
    {
        let sig = match &self.sig {
            None => {
                return Err(Error::DecodeSigError);
            },
            Some(sig) => sig,
        };
        if !signature_is_well_formed(sig.as_bytes()) {
            return Err(Error::DecodeSigError);
        }
        if !public_key_is_valid(&self.author) {
            return Err(Error::InvalidSignature);
        }
        proof {
            crate::entry::encode::lemma_encode_check_is_validity(self@.without_sig());
            crate::entry::encode::lemma_entry_bytes_len(self@.without_sig());
        }
        let mut buffer = [0u8; 512];
        let size = match self.encode_for_signing(&mut buffer) {
            Ok(size) => size,
            Err(_) => {
                return Err(Error::InvalidSignature);
            },
        };
        let signed = slice_subrange(buffer.as_slice(), 0, size);
        proof {
            assert(signed@ =~= signing_bytes(self@));
        }
        if verify_detached(&self.author, signed, sig.as_bytes()) {
            Ok(())
        } else {
            Err(Error::InvalidSignature)
        }
    }
}

/// Bytes together with their digest.
fn hashed<'a>(bytes: Option<&'a [u8]>) -> (r: Option<(&'a [u8], OwnedYasmfHash)>)
    ensures
        pair_view(r) == with_digest(
            match bytes {
                Some(b) => Some(b@),
                None => None,
            },
        ),
{
    match bytes {
        Some(bytes) => Some((bytes, new_blake3(bytes))),
        None => None,
    }
}

/// The bytes that an optional slice holds.
pub open spec fn bytes_view(bytes: Option<&[u8]>) -> Option<Seq<u8>> {
    match bytes {
        Some(b) => Some(b@),
        None => None,
    }
}

/// Verifies the entry encoded in `entry_bytes`: its signature, its payload
/// where `payload` is supplied, and its links to the entries supplied in
/// `lipmaa_link` and `backlink`.
pub fn verify(
    entry_bytes: &[u8],
    payload: Option<&[u8]>,
    lipmaa_link: Option<&[u8]>,
    backlink: Option<&[u8]>,
) -> (r: Result<(), Error>)
    ensures
        r == verify_outcome(
            entry_bytes@,
            bytes_view(payload),
            bytes_view(lipmaa_link),
            bytes_view(backlink),
        ),
{
    let entry = match decode(entry_bytes) {
        Err(source) => {
            return Err(Error::DecodeEntry { source });
        },
        Ok(entry) => entry,
    };
    proof {
        crate::entry::roundtrip::lemma_encode_decode(entry_bytes@);
        crate::entry::encode::lemma_encode_check_is_validity(entry@.without_sig());
    }
    match verify_links_and_payload(&entry, hashed(payload), hashed(lipmaa_link), hashed(backlink)) {
        Err(error) => {
            return Err(error);
        },
        Ok(_) => {},
    }
    entry.verify_signature()
}

} // verus!
