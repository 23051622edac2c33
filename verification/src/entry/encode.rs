//! Writing an entry as bytes.

use crate::bytes::put_after;
use crate::entry::entry_bytes;
use crate::entry::links_part;
use crate::entry::numbers_part;
use crate::entry::payload_part;
use crate::entry::signing_bytes;
use crate::entry::Entry;
use crate::entry::EntryBytes;
use crate::entry::EntryData;
use crate::entry::MAX_ENTRY_SIZE;
use crate::lipmaa::is_lipmaa_required;
use crate::lipmaa::is_lipmaa_required_spec;
use crate::varint;
use crate::varint::varu64_encode;
use crate::yasmf_hash::hash_encoding;
use crate::yasmf_hash::YasmfHash;
use vstd::prelude::*;
use vstd::slice::slice_subrange;

verus! {

/// Why an entry cannot be written.
#[derive(Debug, Clone, Copy, PartialEq, Eq, Structural)]
pub enum Error {
    /// The buffer is too small for the entry.
    EncodeBufferLength,
    /// The sequence number is 0.
    EncodeSeqIsZero,
    /// The first entry carries a link.
    EncodeEntryHasLinksWhenSeqIsOne,
    /// An entry after the first has no link to the entry before it.
    EncodeBacklinkRequired,
    /// The entry has no skip link although its skip link points elsewhere
    /// than to the entry before it.
    EncodeLipmaaRequired,
    /// The digest of the payload has not 32 bytes.
    EncodePayloadHashError,
    /// The link to the entry before has not 32 bytes.
    EncodeBacklinkError,
    /// The skip link has not 32 bytes.
    EncodeLipmaaError,
    /// The signature has not 64 bytes.
    EncodeSigError,
}

/// What, if anything, keeps an entry from being encoded. The links are looked
/// at first, then the sizes of the fields.
pub open spec fn encode_check(e: EntryData) -> Result<(), Error> {
    if e.seq_num == 0 {
        Err(Error::EncodeSeqIsZero)
    } else if e.seq_num == 1 && (e.backlink is Some || e.lipmaa_link is Some) {
        Err(Error::EncodeEntryHasLinksWhenSeqIsOne)
    } else if e.seq_num > 1 && e.backlink is None {
        Err(Error::EncodeBacklinkRequired)
    } else if e.seq_num > 1 && is_lipmaa_required_spec(e.seq_num as nat) && e.lipmaa_link is None {
        Err(Error::EncodeLipmaaRequired)
    } else if e.payload_hash.len() != 32 {
        Err(Error::EncodePayloadHashError)
    } else if e.backlink is Some && e.backlink.unwrap().len() != 32 {
        Err(Error::EncodeBacklinkError)
    } else if e.lipmaa_link is Some && e.lipmaa_link.unwrap().len() != 32 {
        Err(Error::EncodeLipmaaError)
    } else if e.sig is Some && e.sig.unwrap().len() != 64 {
        Err(Error::EncodeSigError)
    } else {
        Ok(())
    }
}

/// The bytes that encoding an entry into a buffer of `capacity` bytes writes,
/// or why it writes none.
pub open spec fn encode_outcome(e: EntryData, capacity: nat) -> Result<Seq<u8>, Error> {
    match encode_check(e) {
        Err(error) => Err(error),
        Ok(_) => if capacity < entry_bytes(e).len() {
            Err(Error::EncodeBufferLength)
        } else {
            Ok(entry_bytes(e))
        },
    }
}

/// An entry passes the check exactly if it is valid, given an author's key of
/// 32 bytes.
pub proof fn lemma_encode_check_is_validity(e: EntryData)
    requires
        e.author.len() == 32,
    ensures
        encode_check(e) is Ok <==> e.valid(),
{
}

/// No encoded entry takes more than 226 bytes.
pub proof fn lemma_entry_bytes_len(e: EntryData)
    requires
        e.valid(),
    ensures
        entry_bytes(e).len() <= MAX_ENTRY_SIZE,
        entry_bytes(e).len() == 33 + varint::encoding_width(e.log_id) + varint::encoding_width(
            e.seq_num,
        ) + (if e.seq_num > 1 {
            if e.lipmaa_link is Some {
                68int
            } else {
                34int
            }
        } else {
            0int
        }) + varint::encoding_width(e.payload_size) + 34 + (if e.sig is Some {
            64int
        } else {
            0int
        }),
{
    varint::lemma_parse_encoding(e.log_id, Seq::empty());
    varint::lemma_parse_encoding(e.seq_num, Seq::empty());
    varint::lemma_parse_encoding(e.payload_size, Seq::empty());
    varint::lemma_width_bounds(e.log_id);
    varint::lemma_width_bounds(e.seq_num);
    varint::lemma_width_bounds(e.payload_size);
}

/// Writes the encoding of `digest` into `out` from position `at` on.
fn put_hash(
    out: &mut [u8],
    at: usize,
    digest: &YasmfHash,
    Ghost(head): Ghost<Seq<u8>>,
    Ghost(before): Ghost<Seq<u8>>,
) -> (next: usize)
    requires
        at + 34 <= old(out)@.len(),
        digest@.len() == 32,
        head.len() == at,
        before.len() == old(out)@.len(),
        old(out)@ == head + before.skip(at as int),
    ensures
        next == at + 34,
        final(out)@.len() == old(out)@.len(),
        final(out)@ == (head + hash_encoding(digest@)) + before.skip(next as int),
{
    let mut number = [0u8; 9];
    let number_width = varu64_encode(crate::yasmf_hash::BLAKE3_NUMERIC_ID, &mut number);
    let mut len = [0u8; 9];
    let len_width = varu64_encode(crate::yasmf_hash::BLAKE3_HASH_SIZE as u64, &mut len);
    let number_bytes = slice_subrange(number.as_slice(), 0, number_width);
    let len_bytes = slice_subrange(len.as_slice(), 0, len_width);
    let at = put_after(out, at, number_bytes, Ghost(head), Ghost(before));
    let at = put_after(out, at, len_bytes, Ghost(head + number_bytes@), Ghost(before));
    let at = put_after(
        out,
        at,
        digest.as_bytes(),
        Ghost(head + number_bytes@ + len_bytes@),
        Ghost(before),
    );
    proof {
        assert(head + number_bytes@ + len_bytes@ + digest@ =~= head + hash_encoding(digest@));
    }
    at
}

impl<'a> Entry<'a> {
    /// The entry as it is written: with its signature, or without.
    pub open spec fn shown(&self, with_sig: bool) -> EntryData {
        if with_sig {
            self@
        } else {
            self@.without_sig()
        }
    }

    /// Looks for what keeps the entry from being encoded.
    fn check(&self, with_sig: bool) -> (r: Result<(), Error>)
        ensures
            r == encode_check(self.shown(with_sig)),
    {
        if self.seq_num == 0 {
            return Err(Error::EncodeSeqIsZero);
        }
        if self.seq_num == 1 && (self.backlink.is_some() || self.lipmaa_link.is_some()) {
            return Err(Error::EncodeEntryHasLinksWhenSeqIsOne);
        }
        if self.seq_num > 1 && self.backlink.is_none() {
            return Err(Error::EncodeBacklinkRequired);
        }
        if self.seq_num > 1 && is_lipmaa_required(self.seq_num) && self.lipmaa_link.is_none() {
            return Err(Error::EncodeLipmaaRequired);
        }
        if self.payload_hash.as_bytes().len() != 32 {
            return Err(Error::EncodePayloadHashError);
        }
        if let Some(digest) = &self.backlink {
            if digest.as_bytes().len() != 32 {
                return Err(Error::EncodeBacklinkError);
            }
        }
        if let Some(digest) = &self.lipmaa_link {
            if digest.as_bytes().len() != 32 {
                return Err(Error::EncodeLipmaaError);
            }
        }
        if with_sig {
            if let Some(sig) = &self.sig {
                if sig.as_bytes().len() != 64 {
                    return Err(Error::EncodeSigError);
                }
            }
        }
        Ok(())
    }

    /// Whether the entry is valid, that is, whether it can be encoded.
    pub fn is_valid(&self) -> (r: bool)
        ensures
            r == self@.valid(),
    {
        proof {
            lemma_encode_check_is_validity(self@);
        }
        self.check(true).is_ok()
    }

    /// The number of bytes that the encoding takes.
    fn encoded_len(&self, with_sig: bool) -> (r: usize)
        requires
            encode_check(self.shown(with_sig)) is Ok,
        ensures
            r == entry_bytes(self.shown(with_sig)).len(),
            r <= MAX_ENTRY_SIZE,
    {
        proof {
            lemma_entry_bytes_len(self.shown(with_sig));
        }
        let log_id_width = varint::encoding_length(self.log_id);
        let seq_num_width = varint::encoding_length(self.seq_num);
        let payload_size_width = varint::encoding_length(self.payload_size);
        let links_len: usize = if self.seq_num > 1 {
            if self.lipmaa_link.is_some() {
                68
            } else {
                34
            }
        } else {
            0
        };
        let sig_len: usize = if with_sig && self.sig.is_some() {
            64
        } else {
            0
        };
        33 + log_id_width + seq_num_width + links_len + payload_size_width + 34 + sig_len
    }

    /// Writes the size and digest of the payload and the signature.
    fn put_payload(
        &self,
        out: &mut [u8],
        at: usize,
        with_sig: bool,
        Ghost(head): Ghost<Seq<u8>>,
        Ghost(before): Ghost<Seq<u8>>,
    ) -> (next: usize)
        requires
            encode_check(self.shown(with_sig)) is Ok,
            at + payload_part(self.shown(with_sig)).len() <= old(out)@.len(),
            head.len() == at,
            before.len() == old(out)@.len(),
            old(out)@ == head + before.skip(at as int),
        ensures
            next == at + payload_part(self.shown(with_sig)).len(),
            final(out)@.len() == old(out)@.len(),
            final(out)@ == (head + payload_part(self.shown(with_sig))) + before.skip(next as int),
    {
        let ghost e = self.shown(with_sig);
        proof {
            varint::lemma_parse_encoding(self.payload_size, Seq::empty());
        }
        let mut payload_size = [0u8; 9];
        let payload_size_width = varu64_encode(self.payload_size, &mut payload_size);
        let payload_size_bytes = slice_subrange(payload_size.as_slice(), 0, payload_size_width);
        let at = put_after(out, at, payload_size_bytes, Ghost(head), Ghost(before));
        let ghost sized = head + payload_size_bytes@;
        let mut at = put_hash(out, at, &self.payload_hash, Ghost(sized), Ghost(before));
        let ghost hashed = sized + hash_encoding(self.payload_hash@);
        let ghost mut signed = hashed;
        if with_sig {
            if let Some(sig) = &self.sig {
                at = put_after(out, at, sig.as_bytes(), Ghost(hashed), Ghost(before));
                proof {
                    signed = hashed + sig@;
                }
            }
        }
        proof {
            assert(payload_size_bytes@ =~= varint::encoding(self.payload_size));
            assert(signed =~= head + payload_part(e));
        }
        at
    }

    /// Writes the links of every entry but the first, and what follows them.
    fn put_links(
        &self,
        out: &mut [u8],
        at: usize,
        with_sig: bool,
        Ghost(head): Ghost<Seq<u8>>,
        Ghost(before): Ghost<Seq<u8>>,
    ) -> (next: usize)
        requires
            encode_check(self.shown(with_sig)) is Ok,
            at + links_part(self.shown(with_sig)).len() <= old(out)@.len(),
            head.len() == at,
            before.len() == old(out)@.len(),
            old(out)@ == head + before.skip(at as int),
        ensures
            next == at + links_part(self.shown(with_sig)).len(),
            final(out)@.len() == old(out)@.len(),
            final(out)@ == (head + links_part(self.shown(with_sig))) + before.skip(next as int),
    {
        let ghost e = self.shown(with_sig);
        let mut at = at;
        let ghost mut linked = head;
        if self.seq_num > 1 {
            if let Some(digest) = &self.backlink {
                at = put_hash(out, at, digest, Ghost(linked), Ghost(before));
                proof {
                    linked = linked + hash_encoding(digest@);
                }
            }
            if let Some(digest) = &self.lipmaa_link {
                at = put_hash(out, at, digest, Ghost(linked), Ghost(before));
                proof {
                    linked = linked + hash_encoding(digest@);
                }
            }
        }
        let next = self.put_payload(out, at, with_sig, Ghost(linked), Ghost(before));
        proof {
            assert(linked + payload_part(e) =~= head + links_part(e));
        }
        next
    }

    /// Writes the number of the log and the sequence number, and what follows
    /// them.
    fn put_numbers(
        &self,
        out: &mut [u8],
        at: usize,
        with_sig: bool,
        Ghost(head): Ghost<Seq<u8>>,
        Ghost(before): Ghost<Seq<u8>>,
    ) -> (next: usize)
        requires
            encode_check(self.shown(with_sig)) is Ok,
            at + numbers_part(self.shown(with_sig)).len() <= old(out)@.len(),
            head.len() == at,
            before.len() == old(out)@.len(),
            old(out)@ == head + before.skip(at as int),
        ensures
            next == at + numbers_part(self.shown(with_sig)).len(),
            final(out)@.len() == old(out)@.len(),
            final(out)@ == (head + numbers_part(self.shown(with_sig))) + before.skip(next as int),
    {
        let ghost e = self.shown(with_sig);
        proof {
            varint::lemma_parse_encoding(self.log_id, Seq::empty());
            varint::lemma_parse_encoding(self.seq_num, Seq::empty());
        }
        let mut log_id = [0u8; 9];
        let log_id_width = varu64_encode(self.log_id, &mut log_id);
        let log_id_bytes = slice_subrange(log_id.as_slice(), 0, log_id_width);
        let mut seq_num = [0u8; 9];
        let seq_num_width = varu64_encode(self.seq_num, &mut seq_num);
        let seq_num_bytes = slice_subrange(seq_num.as_slice(), 0, seq_num_width);
        proof {
            assert(log_id_bytes@ =~= varint::encoding(self.log_id));
            assert(seq_num_bytes@ =~= varint::encoding(self.seq_num));
        }
        let at = put_after(out, at, log_id_bytes, Ghost(head), Ghost(before));
        let ghost logged = head + log_id_bytes@;
        let at = put_after(out, at, seq_num_bytes, Ghost(logged), Ghost(before));
        let ghost numbered = logged + seq_num_bytes@;
        let next = self.put_links(out, at, with_sig, Ghost(numbered), Ghost(before));
        proof {
            assert(numbered + links_part(e) =~= head + numbers_part(e));
        }
        next
    }

    /// Writes the entry, or the entry without its signature, at the start of
    /// `out`.
    fn encode_fields(&self, out: &mut [u8], with_sig: bool) -> (r: Result<usize, Error>)
        ensures
            match encode_outcome(self.shown(with_sig), old(out)@.len()) {
                Ok(bytes) => r == Ok::<usize, Error>(bytes.len() as usize) && bytes.len()
                    <= MAX_ENTRY_SIZE && final(out)@ == bytes + old(out)@.skip(bytes.len() as int),
                Err(e) => r == Err::<usize, Error>(e) && final(out)@ == old(out)@,
            },
    {
        let ghost e = self.shown(with_sig);
        let ghost before = out@;
        match self.check(with_sig) {
            Err(error) => {
                return Err(error);
            },
            Ok(_) => {},
        }
        let total = self.encoded_len(with_sig);
        if out.len() < total {
            return Err(Error::EncodeBufferLength);
        }
        let mark = [if self.is_end_of_feed { 1u8 } else { 0u8 }];
        proof {
            assert(out@ =~= Seq::<u8>::empty() + before.skip(0));
        }
        let at = put_after(out, 0, mark.as_slice(), Ghost(Seq::empty()), Ghost(before));
        let ghost marked = Seq::<u8>::empty() + mark@;
        let at = put_after(out, at, self.author.as_slice(), Ghost(marked), Ghost(before));
        let ghost authored = marked + self.author@;
        proof {
            assert(authored =~= seq![if e.is_end_of_feed { 1u8 } else { 0u8 }] + e.author);
            assert(entry_bytes(e).len() == 33 + numbers_part(e).len());
        }
        let next = self.put_numbers(out, at, with_sig, Ghost(authored), Ghost(before));
        Ok(next)
    }

    /// Writes the entry at the start of `out` and returns the number of bytes
    /// written. Fails, and writes nothing, where the entry is not valid or
    /// `out` is too small for it.
    pub fn encode(&self, out: &mut [u8]) -> (r: Result<usize, Error>)
        ensures
            match encode_outcome(self@, old(out)@.len()) {
                Ok(bytes) => r == Ok::<usize, Error>(bytes.len() as usize) && bytes.len()
                    <= MAX_ENTRY_SIZE && final(out)@ == bytes + old(out)@.skip(bytes.len() as int),
                Err(e) => r == Err::<usize, Error>(e) && final(out)@ == old(out)@,
            },
    {
        self.encode_fields(out, true)
    }

    /// Appends the encoding of the entry to `w`. Fails, and appends nothing,
    /// where the entry is not valid.
    pub fn encode_write(&self, w: &mut Vec<u8>) -> (r: Result<(), Error>)
        ensures
            match encode_check(self@) {
                Ok(_) => r is Ok && final(w)@ == old(w)@ + entry_bytes(self@),
                Err(e) => r == Err::<(), Error>(e) && final(w)@ == old(w)@,
            },
    {
        proof {
            if encode_check(self@) is Ok {
                if self@.valid() {
                    lemma_entry_bytes_len(self@);
                }
            }
        }
        let mut buffer = [0u8; 226];
        let size = match self.encode(&mut buffer) {
            Ok(size) => size,
            Err(error) => {
                return Err(error);
            },
        };
        let written = slice_subrange(buffer.as_slice(), 0, size);
        proof {
            assert(written@ =~= entry_bytes(self@));
        }
        w.extend_from_slice(written);
        Ok(())
    }

    /// The encoding of the entry.
    pub fn to_bytes(&self) -> (r: EntryBytes)
        requires
            self@.valid(),
        ensures
            r@ == entry_bytes(self@),
    {
        let mut bytes = Vec::new();
        let written = self.encode_write(&mut bytes);
        proof {
            assert(bytes@ =~= entry_bytes(self@));
        }
        EntryBytes(bytes)
    }

    /// Writes the bytes that the signature is made over, those of the entry
    /// without its signature, at the start of `out`, and returns their number.
    pub fn encode_for_signing(&self, out: &mut [u8]) -> (r: Result<usize, Error>)
        ensures
            match encode_outcome(self@.without_sig(), old(out)@.len()) {
                Ok(bytes) => r == Ok::<usize, Error>(bytes.len() as usize) && bytes
                    == signing_bytes(self@) && bytes.len() <= MAX_ENTRY_SIZE && final(out)@
                    == bytes + old(out)@.skip(bytes.len() as int),
                Err(e) => r == Err::<usize, Error>(e) && final(out)@ == old(out)@,
            },
    {
        self.encode_fields(out, false)
    }
}

} // verus!
