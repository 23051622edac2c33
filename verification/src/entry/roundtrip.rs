//! Encoding and decoding undo each other.

use crate::entry::decode::Error;
use crate::entry::entry_bytes;
use crate::entry::links_part;
use crate::entry::numbers_part;
use crate::entry::parse_entry;
use crate::entry::parse_links;
use crate::entry::parse_numbers;
use crate::entry::parse_payload;
use crate::entry::payload_part;
use crate::entry::signing_bytes;
use crate::entry::starts_with_digest;
use crate::entry::EntryData;
use crate::keys::ed25519_key_valid;
use crate::lipmaa::is_lipmaa_required_spec;
use crate::varint;
use crate::yasmf_hash::hash_encoding;
use crate::yasmf_hash::lemma_hash_encoding_parse;
use crate::yasmf_hash::lemma_parse_hash_encoding;
use crate::yasmf_hash::parse_hash;
use vstd::prelude::*;

verus! {

/// The fields that the last stage of parsing fills in.
pub open spec fn with_payload(base: EntryData, e: EntryData) -> EntryData {
    EntryData { payload_size: e.payload_size, payload_hash: e.payload_hash, sig: e.sig, ..base }
}

/// The fields that the last two stages of parsing fill in.
pub open spec fn with_links(base: EntryData, e: EntryData) -> EntryData {
    EntryData { backlink: e.backlink, lipmaa_link: e.lipmaa_link, ..with_payload(base, e) }
}

/// The fields that all stages after the author fill in.
pub open spec fn with_numbers(base: EntryData, e: EntryData) -> EntryData {
    EntryData { log_id: e.log_id, seq_num: e.seq_num, ..with_links(base, e) }
}

pub proof fn lemma_parse_payload_part(base: EntryData, e: EntryData)
    requires
        e.sizes_valid(),
    ensures
        parse_payload(base, payload_part(e)) == Ok::<EntryData, Error>(with_payload(base, e)),
{
    let sig = match e.sig {
        Some(sig) => sig,
        None => Seq::empty(),
    };
    let input = payload_part(e);
    let after_size = hash_encoding(e.payload_hash) + sig;
    varint::lemma_parse_encoding(e.payload_size, after_size);
    let width = varint::encoding_width(e.payload_size);
    assert(input.skip(width as int) =~= after_size);
    lemma_parse_hash_encoding(e.payload_hash, sig);
    assert(after_size.skip(34) =~= sig);
}

/// The size of a payload and what follows it do not start as a digest does.
pub proof fn lemma_payload_part_starts_otherwise(e: EntryData)
    ensures
        !starts_with_digest(payload_part(e)),
{
    varint::lemma_parse_encoding(e.payload_size, Seq::empty());
    varint::lemma_parse_encoding(0, Seq::empty());
    let size = varint::encoding(e.payload_size);
    let rest = hash_encoding(e.payload_hash) + match e.sig {
        Some(sig) => sig,
        None => Seq::empty(),
    };
    assert(payload_part(e)[0] == size[0]);
    if e.payload_size == 0 {
        assert(payload_part(e)[1] == rest[0]);
        assert(rest[0] == 0);
    }
}

pub proof fn lemma_parse_links_part(base: EntryData, e: EntryData)
    requires
        e.valid(),
        base.seq_num == e.seq_num,
        base.backlink is None,
        base.lipmaa_link is None,
    ensures
        parse_links(base, links_part(e)) == Ok::<EntryData, Error>(with_links(base, e)),
{
    reveal(parse_links);
    if e.seq_num > 1 {
        let backlink = e.backlink.unwrap();
        let linked = EntryData { backlink: Some(backlink), ..base };
        match e.lipmaa_link {
            Some(lipmaa_link) => {
                let after_backlink = hash_encoding(lipmaa_link) + payload_part(e);
                lemma_parse_hash_encoding(backlink, after_backlink);
                assert(links_part(e).skip(34) =~= after_backlink);
                lemma_parse_hash_encoding(lipmaa_link, payload_part(e));
                assert(after_backlink.skip(34) =~= payload_part(e));
                assert(starts_with_digest(after_backlink)) by {
                    varint::lemma_parse_encoding(0, Seq::empty());
                    varint::lemma_parse_encoding(32, Seq::empty());
                    assert(after_backlink[0] == 0);
                    assert(after_backlink[1] == 32);
                }
                let both = EntryData { lipmaa_link: Some(lipmaa_link), ..linked };
                lemma_parse_payload_part(both, e);
            },
            None => {
                lemma_parse_hash_encoding(backlink, payload_part(e));
                assert(links_part(e).skip(34) =~= payload_part(e));
                lemma_payload_part_starts_otherwise(e);
                lemma_parse_payload_part(linked, e);
            },
        }
    } else {
        lemma_parse_payload_part(base, e);
    }
}

pub proof fn lemma_parse_numbers_part(base: EntryData, e: EntryData)
    requires
        e.valid(),
        base.backlink is None,
        base.lipmaa_link is None,
    ensures
        parse_numbers(base, numbers_part(e)) == Ok::<EntryData, Error>(with_numbers(base, e)),
{
    reveal(parse_numbers);
    let after_log_id = varint::encoding(e.seq_num) + links_part(e);
    varint::lemma_parse_encoding(e.log_id, after_log_id);
    let width = varint::encoding_width(e.log_id);
    assert(numbers_part(e).skip(width as int) =~= after_log_id);
    varint::lemma_parse_encoding(e.seq_num, links_part(e));
    let seq_width = varint::encoding_width(e.seq_num);
    assert(after_log_id.skip(seq_width as int) =~= links_part(e));
    lemma_parse_links_part(EntryData { log_id: e.log_id, seq_num: e.seq_num, ..base }, e);
}

/// Decoding the encoding of an entry gives the entry back, signature
/// included. This holds of every entry that can be encoded and whose author
/// is a public key.
pub proof fn lemma_decode_encode(e: EntryData)
    requires
        e.valid(),
        ed25519_key_valid(e.author),
    ensures
        parse_entry(entry_bytes(e)) == Ok::<EntryData, Error>(e),
{
    let input = entry_bytes(e);
    assert(input.subrange(1, 33) =~= e.author);
    assert(input.skip(33) =~= numbers_part(e));
    let base = EntryData {
        log_id: 0,
        is_end_of_feed: input[0] == 1,
        payload_hash: Seq::empty(),
        payload_size: 0,
        author: input.subrange(1, 33),
        seq_num: 0,
        backlink: None,
        lipmaa_link: None,
        sig: None,
    };
    lemma_parse_numbers_part(base, e);
}

pub proof fn lemma_payload_part_parsed(base: EntryData, input: Seq<u8>)
    requires
        parse_payload(base, input) is Ok,
    ensures
        ({
            let e = parse_payload(base, input).unwrap();
            &&& e == with_payload(base, e)
            &&& payload_part(e) == input
            &&& e.payload_hash.len() == 32
            &&& e.sig matches Some(sig) ==> sig.len() == 64
        }),
{
    let e = parse_payload(base, input).unwrap();
    varint::lemma_encoding_parse(input);
    let (payload_size, width) = varint::parse(input).unwrap();
    let after_size = input.skip(width as int);
    lemma_hash_encoding_parse(after_size);
    let sig = after_size.skip(34);
    assert(after_size =~= after_size.subrange(0, 34) + sig);
    assert(input =~= input.subrange(0, width as int) + after_size);
    if sig.len() == 0 {
        assert(sig =~= Seq::<u8>::empty());
    }
}

pub proof fn lemma_links_part_parsed(base: EntryData, input: Seq<u8>)
    requires
        parse_links(base, input) is Ok,
        base.seq_num >= 1,
        base.backlink is None,
        base.lipmaa_link is None,
    ensures
        ({
            let e = parse_links(base, input).unwrap();
            &&& e == with_links(base, e)
            &&& links_part(e) == input
            &&& e.links_valid()
            &&& e.payload_hash.len() == 32
            &&& e.backlink matches Some(digest) ==> digest.len() == 32
            &&& e.lipmaa_link matches Some(digest) ==> digest.len() == 32
            &&& e.sig matches Some(sig) ==> sig.len() == 64
        }),
{
    reveal(parse_links);
    if base.seq_num > 1 {
        lemma_hash_encoding_parse(input);
        let (backlink, used) = parse_hash(input).unwrap();
        let rest = input.skip(34);
        assert(input =~= input.subrange(0, 34) + rest);
        let linked = EntryData { backlink: Some(backlink), ..base };
        if is_lipmaa_required_spec(base.seq_num as nat) || starts_with_digest(rest) {
            lemma_hash_encoding_parse(rest);
            let (lipmaa_link, used_again) = parse_hash(rest).unwrap();
            assert(rest =~= rest.subrange(0, 34) + rest.skip(34));
            lemma_payload_part_parsed(
                EntryData { lipmaa_link: Some(lipmaa_link), ..linked },
                rest.skip(34),
            );
        } else {
            lemma_payload_part_parsed(linked, rest);
        }
    } else {
        lemma_payload_part_parsed(base, input);
    }
}

pub proof fn lemma_numbers_part_parsed(base: EntryData, input: Seq<u8>)
    requires
        parse_numbers(base, input) is Ok,
        base.backlink is None,
        base.lipmaa_link is None,
    ensures
        ({
            let e = parse_numbers(base, input).unwrap();
            &&& e == with_numbers(base, e)
            &&& numbers_part(e) == input
            &&& e.links_valid()
            &&& e.payload_hash.len() == 32
            &&& e.backlink matches Some(digest) ==> digest.len() == 32
            &&& e.lipmaa_link matches Some(digest) ==> digest.len() == 32
            &&& e.sig matches Some(sig) ==> sig.len() == 64
        }),
{
    reveal(parse_numbers);
    varint::lemma_encoding_parse(input);
    let (log_id, width) = varint::parse(input).unwrap();
    let after_log_id = input.skip(width as int);
    assert(input =~= input.subrange(0, width as int) + after_log_id);
    varint::lemma_encoding_parse(after_log_id);
    let (seq_num, seq_width) = varint::parse(after_log_id).unwrap();
    let after_seq = after_log_id.skip(seq_width as int);
    assert(after_log_id =~= after_log_id.subrange(0, seq_width as int) + after_seq);
    lemma_links_part_parsed(EntryData { log_id, seq_num, ..base }, after_seq);
}

/// Bytes that decode are the encoding of the entry they decode to: no entry
/// has two encodings. The entry decoded can be encoded, and its author is a
/// public key.
pub proof fn lemma_encode_decode(input: Seq<u8>)
    requires
        parse_entry(input) is Ok,
    ensures
        entry_bytes(parse_entry(input).unwrap()) == input,
        parse_entry(input).unwrap().valid(),
        ed25519_key_valid(parse_entry(input).unwrap().author),
{
    let base = EntryData {
        log_id: 0,
        is_end_of_feed: input[0] == 1,
        payload_hash: Seq::empty(),
        payload_size: 0,
        author: input.subrange(1, 33),
        seq_num: 0,
        backlink: None,
        lipmaa_link: None,
        sig: None,
    };
    let rest = input.skip(33);
    assert(parse_entry(input) == parse_numbers(base, rest));
    lemma_numbers_part_parsed(base, rest);
    let e = parse_numbers(base, rest).unwrap();
    assert(e.author == base.author);
    assert(e.is_end_of_feed == base.is_end_of_feed);
    assert(numbers_part(e) == rest);
    assert(entry_bytes(e) =~= input) by {
        assert(input =~= seq![input[0]] + input.subrange(1, 33) + rest);
    }
}

/// Every entry that comes out of decoding has a sequence number of at least
/// 1; it is the first entry exactly if it has neither link; every later entry
/// links to the one before it; and it carries a skip link wherever the skip
/// link points elsewhere than to the entry before.
pub proof fn lemma_decoded_entry_invariants(input: Seq<u8>)
    requires
        parse_entry(input) is Ok,
    ensures
        ({
            let e = parse_entry(input).unwrap();
            &&& e.seq_num >= 1
            &&& e.seq_num == 1 <==> e.backlink is None && e.lipmaa_link is None
            &&& e.seq_num > 1 ==> e.backlink is Some
            &&& e.seq_num > 1 && is_lipmaa_required_spec(e.seq_num as nat)
                ==> e.lipmaa_link is Some
        }),
{
    lemma_encode_decode(input);
}

/// The signature of an entry, or nothing where it has none.
pub open spec fn sig_part(e: EntryData) -> Seq<u8> {
    match e.sig {
        Some(sig) => sig,
        None => Seq::empty(),
    }
}

/// The encoding of an entry is the bytes that its signature is made over,
/// followed by the signature.
pub proof fn lemma_entry_bytes_split(e: EntryData)
    ensures
        entry_bytes(e) == signing_bytes(e) + sig_part(e),
{
    let u = e.without_sig();
    assert(payload_part(e) =~= payload_part(u) + sig_part(e));
    assert(links_part(e) =~= links_part(u) + sig_part(e));
    assert(numbers_part(e) =~= numbers_part(u) + sig_part(e));
    assert(entry_bytes(e) =~= signing_bytes(e) + sig_part(e));
}

/// Two different byte strings that both decode differ in the bytes that are
/// signed or in the signature. So bytes that were changed and still decode
/// are accepted only with a signature that holds for other signed bytes, or
/// with another signature that holds for the same.
pub proof fn lemma_changed_bytes_change_what_is_signed(a: Seq<u8>, b: Seq<u8>)
    requires
        parse_entry(a) is Ok,
        parse_entry(b) is Ok,
        a != b,
    ensures
        signing_bytes(parse_entry(a).unwrap()) != signing_bytes(parse_entry(b).unwrap())
            || parse_entry(a).unwrap().sig != parse_entry(b).unwrap().sig,
{
    lemma_encode_decode(a);
    lemma_encode_decode(b);
    lemma_entry_bytes_split(parse_entry(a).unwrap());
    lemma_entry_bytes_split(parse_entry(b).unwrap());
}

/// Nothing decodes from no bytes.
pub proof fn lemma_decode_empty()
    ensures
        parse_entry(Seq::<u8>::empty()) == Err::<EntryData, Error>(Error::DecodeInputIsLengthZero),
{
}

} // verus!
