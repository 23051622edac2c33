//! Why no entry was published, as a plain code with no fields, for callers
//! that cannot take an error with a source inside.

use crate::entry::parse_entry;
use crate::entry::publish::lemma_publish_with_other_log_id;
use crate::entry::publish::published_entry;
use crate::entry::publish::Error;
use crate::keys::ed25519_key_valid;
use crate::keys::Keypair;
use vstd::prelude::*;
use vstd::std_specs::convert::FromSpecImpl;

verus! {

/// The outcome of publishing, as a code.
#[derive(Debug, Clone, Copy, PartialEq, Eq, Structural)]
pub enum PublishError {
    NoError,
    PublishWithInvalidKeypair,
    PublishAfterEndOfFeed,
    PublishWithoutSecretKey,
    PublishWithoutLipmaaEntry,
    PublishWithoutBacklinkEntry,
    DecodeBacklinkEntry,
    EncodeEntryToOutBuffer,
    PublishKeypairDidNotMatchBacklinkPublicKey,
    PublishKeypairDidNotMatchLipmaaLinkPublicKey,
    DecodeLipmaaEntry,
    PublishWithIncorrectBacklinkLogId,
    PublishWithIncorrectLipmaaLinkLogId,
    PublishAfterLastSeqNum,
}

/// The code of an error: every error keeps its name and loses its source.
pub open spec fn code_of(err: Error) -> PublishError {
    match err {
        Error::PublishAfterEndOfFeed => PublishError::PublishAfterEndOfFeed,
        Error::PublishWithIncorrectBacklinkLogId => {
            PublishError::PublishWithIncorrectBacklinkLogId
        },
        Error::PublishWithIncorrectLipmaaLinkLogId => {
            PublishError::PublishWithIncorrectLipmaaLinkLogId
        },
        Error::PublishWithoutSecretKey => PublishError::PublishWithoutSecretKey,
        Error::PublishWithInvalidKeypair => PublishError::PublishWithInvalidKeypair,
        Error::PublishWithoutLipmaaEntry => PublishError::PublishWithoutLipmaaEntry,
        Error::DecodeBacklinkEntry { .. } => PublishError::DecodeBacklinkEntry,
        Error::EncodeEntryToOutBuffer { .. } => PublishError::EncodeEntryToOutBuffer,
        Error::PublishWithoutBacklinkEntry => PublishError::PublishWithoutBacklinkEntry,
        Error::DecodeLipmaaEntry { .. } => PublishError::DecodeLipmaaEntry,
        Error::PublishKeypairDidNotMatchBacklinkPublicKey => {
            PublishError::PublishKeypairDidNotMatchBacklinkPublicKey
        },
        Error::PublishKeypairDidNotMatchLipmaaLinkPublicKey => {
            PublishError::PublishKeypairDidNotMatchLipmaaLinkPublicKey
        },
        Error::PublishAfterLastSeqNum => PublishError::PublishAfterLastSeqNum,
    }
}

/// Publishing into one log after an entry of another gets the code
/// `PublishWithIncorrectBacklinkLogId`.
pub proof fn lemma_code_of_other_log_id(
    key_pair: Keypair,
    log_id: u64,
    payload: Seq<u8>,
    is_end_of_feed: bool,
    lipmaa: Option<Seq<u8>>,
    previous_bytes: Seq<u8>,
)
    requires
        key_pair.secret is Some,
        ed25519_key_valid(key_pair.public@),
        parse_entry(previous_bytes) is Ok,
        !parse_entry(previous_bytes).unwrap().is_end_of_feed,
        parse_entry(previous_bytes).unwrap().log_id != log_id,
    ensures
        published_entry(
            key_pair,
            log_id,
            payload,
            is_end_of_feed,
            true,
            lipmaa,
            Some(previous_bytes),
        ) matches Err(error) && code_of(error) == PublishError::PublishWithIncorrectBacklinkLogId,
{
    lemma_publish_with_other_log_id(
        key_pair,
        log_id,
        payload,
        is_end_of_feed,
        lipmaa,
        previous_bytes,
    );
}

impl From<Error> for PublishError {
    fn from(err: Error) -> (r: PublishError) {
        match err {
            Error::PublishAfterEndOfFeed => PublishError::PublishAfterEndOfFeed,
            Error::PublishWithIncorrectBacklinkLogId => {
                PublishError::PublishWithIncorrectBacklinkLogId
            },
            Error::PublishWithIncorrectLipmaaLinkLogId => {
                PublishError::PublishWithIncorrectLipmaaLinkLogId
            },
            Error::PublishWithoutSecretKey => PublishError::PublishWithoutSecretKey,
            Error::PublishWithInvalidKeypair => PublishError::PublishWithInvalidKeypair,
            Error::PublishWithoutLipmaaEntry => PublishError::PublishWithoutLipmaaEntry,
            Error::DecodeBacklinkEntry { .. } => PublishError::DecodeBacklinkEntry,
            Error::EncodeEntryToOutBuffer { .. } => PublishError::EncodeEntryToOutBuffer,
            Error::PublishWithoutBacklinkEntry => PublishError::PublishWithoutBacklinkEntry,
            Error::DecodeLipmaaEntry { .. } => PublishError::DecodeLipmaaEntry,
            Error::PublishKeypairDidNotMatchBacklinkPublicKey => {
                PublishError::PublishKeypairDidNotMatchBacklinkPublicKey
            },
            Error::PublishKeypairDidNotMatchLipmaaLinkPublicKey => {
                PublishError::PublishKeypairDidNotMatchLipmaaLinkPublicKey
            },
            Error::PublishAfterLastSeqNum => PublishError::PublishAfterLastSeqNum,
        }
    }
}

impl FromSpecImpl<Error> for PublishError {
    open spec fn obeys_from_spec() -> bool {
        true
    }

    open spec fn from_spec(err: Error) -> PublishError {
        code_of(err)
    }
}

/// The code for what publishing returned: `NoError` for an entry written.
pub fn publish_code(outcome: &Result<usize, Error>) -> (r: PublishError)
    ensures
        r == match outcome {
            Ok(_) => PublishError::NoError,
            Err(err) => code_of(*err),
        },
{
    match outcome {
        Ok(_) => PublishError::NoError,
        Err(err) => PublishError::from(*err),
    }
}

} // verus!
