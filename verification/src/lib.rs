//! Bamboo append-only log entries: publish, decode and verify single entries
//! at the byte level.
//!
//! A feed is the sequence of entries that one author signs under one log
//! number. Every entry after the first links to the entry before it and,
//! where that shortens the way back, to an earlier entry as well, so that any
//! two entries of a feed are joined by a short chain of digests.

pub mod bytes;
pub mod entry;
pub mod inline;
pub mod keys;
pub mod lipmaa;
pub mod signature;
pub mod varint;
pub mod yasmf_hash;

pub use entry::batch::verify_batch;
pub use entry::decode::decode;
pub use entry::into_owned;
pub use entry::publish::publish;
pub use entry::publish_error::PublishError;
pub use entry::verify::verify;
pub use entry::verify::verify_links_and_payload;
pub use entry::Entry;
pub use entry::EntryBytes;
pub use entry::OwnedEntry;
pub use entry::MAX_ENTRY_SIZE;
pub use keys::Keypair;
pub use lipmaa::is_lipmaa_required;
pub use lipmaa::lipmaa;
pub use signature::OwnedSignature;
pub use signature::Signature;
pub use signature::ED25519_SIGNATURE_SIZE;
pub use yasmf_hash::new_blake3;
pub use yasmf_hash::OwnedYasmfHash;
pub use yasmf_hash::YasmfHash;
pub use yasmf_hash::BLAKE3_HASH_SIZE;
