use bamboo_core::entry::decode::decode;
use bamboo_core::entry::decode::Error as DecodeError;
use bamboo_core::entry::encode::Error as EncodeError;
use bamboo_core::entry::into_owned;
use bamboo_core::entry::Entry;
use bamboo_core::entry::MAX_ENTRY_SIZE;
use bamboo_core::entry::MAX_ENTRY_SIZE_;
use bamboo_core::signature::Signature;
use bamboo_core::yasmf_hash::Error as HashError;
use bamboo_core::yasmf_hash::YasmfHash;

const AUTHOR: [u8; 32] = [0xEE; 32];
const BACKLINK: [u8; 32] = [0xAA; 32];
const PAYLOAD_HASH: [u8; 32] = [0xAB; 32];
const LIPMAA_LINK: [u8; 32] = [0xAC; 32];
const SIG: [u8; 64] = [0xDD; 64];

fn push_varu64(bytes: &mut Vec<u8>, n: u64) {
    let mut buffer = [0u8; 9];
    let written = varu64::encode(n, &mut buffer);
    bytes.extend_from_slice(&buffer[..written]);
}

fn push_hash(bytes: &mut Vec<u8>, digest: &[u8]) {
    bytes.push(0);
    bytes.push(32);
    bytes.extend_from_slice(digest);
}

/// The bytes of an entry put together by hand. Links are written as the
/// sequence number asks for them.
fn entry_bytes_by_hand(log_id: u64, seq_num: u64, payload_size: u64, signed: bool) -> Vec<u8> {
    let mut bytes = Vec::new();
    bytes.push(1u8);
    bytes.extend_from_slice(&AUTHOR);
    push_varu64(&mut bytes, log_id);
    push_varu64(&mut bytes, seq_num);
    if seq_num > 1 {
        push_hash(&mut bytes, &BACKLINK);
        if lipmaa_link::lipmaa(seq_num) != seq_num - 1 {
            push_hash(&mut bytes, &LIPMAA_LINK);
        }
    }
    push_varu64(&mut bytes, payload_size);
    push_hash(&mut bytes, &PAYLOAD_HASH);
    if signed {
        bytes.extend_from_slice(&SIG);
    }
    bytes
}

fn entry_by_hand<'a>(seq_num: u64) -> Entry<'a> {
    Entry {
        log_id: 0,
        is_end_of_feed: false,
        payload_hash: YasmfHash::Blake3(&PAYLOAD_HASH),
        payload_size: 512,
        author: AUTHOR,
        seq_num,
        backlink: if seq_num > 1 { Some(YasmfHash::Blake3(&BACKLINK)) } else { None },
        lipmaa_link: if seq_num > 1 && lipmaa_link::lipmaa(seq_num) != seq_num - 1 {
            Some(YasmfHash::Blake3(&LIPMAA_LINK))
        } else {
            None
        },
        sig: Some(Signature(&SIG)),
    }
}

#[test]
fn encode_decode_entry() {
    let payload_size = 512;
    let seq_num = 2;

    let mut entry_vec = Vec::new();

    entry_vec.push(1u8); // end of feed is true

    entry_vec.extend_from_slice(&AUTHOR);
    push_varu64(&mut entry_vec, 0);
    push_varu64(&mut entry_vec, seq_num);
    push_hash(&mut entry_vec, &BACKLINK);
    push_hash(&mut entry_vec, &LIPMAA_LINK);
    push_varu64(&mut entry_vec, payload_size);
    push_hash(&mut entry_vec, &PAYLOAD_HASH);
    entry_vec.extend_from_slice(&SIG);

    let entry = decode(&entry_vec).unwrap();

    assert_eq!(entry.is_end_of_feed, true);
    assert_eq!(entry.payload_size, payload_size);
    assert_eq!(entry.seq_num, seq_num);

    match entry.payload_hash {
        YasmfHash::Blake3(hash) => {
            assert_eq!(hash, &PAYLOAD_HASH[..]);
        }
    }

    match entry.backlink {
        Some(YasmfHash::Blake3(hash)) => {
            assert_eq!(hash, &BACKLINK[..]);
        }
        _ => panic!(),
    }
    match entry.lipmaa_link {
        Some(YasmfHash::Blake3(hash)) => {
            assert_eq!(hash, &LIPMAA_LINK[..]);
        }
        _ => panic!(),
    }

    match entry.sig {
        Some(Signature(sig)) => {
            assert_eq!(sig, &SIG[..]);
        }
        _ => panic!(),
    }

    assert_eq!(entry.author, AUTHOR);

    let mut encoded = Vec::new();

    entry.encode_write(&mut encoded).unwrap();

    assert_eq!(encoded, entry_vec);
}

#[test]
fn encode_decode_entry_without_the_skip_link() {
    let entry_vec = entry_bytes_by_hand(0, 2, 512, true);
    let entry = decode(&entry_vec).unwrap();
    assert_eq!(entry.seq_num, 2);
    assert_eq!(entry.backlink.unwrap().as_bytes(), &BACKLINK[..]);
    assert!(entry.lipmaa_link.is_none());
    let mut encoded = Vec::new();
    entry.encode_write(&mut encoded).unwrap();
    assert_eq!(encoded, entry_vec);
}

#[test]
fn encode_decode_entry_with_both_links() {
    let entry_vec = entry_bytes_by_hand(7, 4, 512, true);
    let entry = decode(&entry_vec).unwrap();
    assert_eq!(entry.log_id, 7);
    assert_eq!(entry.seq_num, 4);
    assert_eq!(entry.backlink.unwrap().as_bytes(), &BACKLINK[..]);
    assert_eq!(entry.lipmaa_link.unwrap().as_bytes(), &LIPMAA_LINK[..]);
    let mut out = [0u8; MAX_ENTRY_SIZE];
    let size = entry.encode(&mut out).unwrap();
    assert_eq!(&out[..size], &entry_vec[..]);
    assert_eq!(entry.to_bytes().0, entry_vec);
}

#[test]
fn encode_decode_unsigned_entry() {
    let entry_vec = entry_bytes_by_hand(0, 1, 0, false);
    let entry = Entry::decode(&entry_vec).unwrap();
    assert!(entry.sig.is_none());
    assert!(entry.backlink.is_none());
    assert!(entry.lipmaa_link.is_none());
    assert_eq!(entry_vec.len(), 1 + 32 + 1 + 1 + 1 + 34);
    assert_eq!(entry.to_bytes().0, entry_vec);
}

#[test]
fn encode_for_signing_leaves_the_signature_out() {
    let entry = entry_by_hand(4);
    let mut with_sig = [0u8; MAX_ENTRY_SIZE];
    let size = entry.encode(&mut with_sig).unwrap();
    let mut without_sig = [0u8; MAX_ENTRY_SIZE];
    let signing_size = entry.encode_for_signing(&mut without_sig).unwrap();
    assert_eq!(signing_size + 64, size);
    assert_eq!(&without_sig[..signing_size], &with_sig[..signing_size]);
    assert_eq!(&with_sig[signing_size..size], &SIG[..]);
}

#[test]
fn encode_wide_numbers() {
    let mut entry = entry_by_hand(1);
    entry.log_id = 256;
    entry.payload_size = u64::MAX;
    let mut out = [0u8; MAX_ENTRY_SIZE];
    let size = entry.encode(&mut out).unwrap();
    assert_eq!(&out[33..36], &[249, 1, 0]);
    assert_eq!(out[36], 1);
    assert_eq!(&out[37..46], &[255, 255, 255, 255, 255, 255, 255, 255, 255]);
    assert_eq!(size, 1 + 32 + 3 + 1 + 9 + 34 + 64);
    let decoded = decode(&out[..size]).unwrap();
    assert_eq!(decoded.log_id, 256);
    assert_eq!(decoded.payload_size, u64::MAX);
}

#[test]
fn largest_entry_fills_the_bound() {
    assert_eq!(MAX_ENTRY_SIZE, 226);
    assert_eq!(MAX_ENTRY_SIZE_, 226);
    // The greatest sequence number needs a skip link of its own.
    assert!(lipmaa_link::lipmaa(u64::MAX) != u64::MAX - 1);
    let mut entry = entry_by_hand(u64::MAX);
    entry.log_id = u64::MAX;
    entry.payload_size = u64::MAX;
    let mut out = [0u8; MAX_ENTRY_SIZE];
    assert_eq!(entry.encode(&mut out), Ok(226));
    let mut small = [0u8; 225];
    assert_eq!(entry.encode(&mut small), Err(EncodeError::EncodeBufferLength));
    assert!(small.iter().all(|byte| *byte == 0));
    assert_eq!(decode(&out).unwrap().seq_num, u64::MAX);
}

#[test]
fn encode_leaves_the_rest_of_the_buffer() {
    let entry = entry_by_hand(1);
    let mut out = [0x55u8; 300];
    let size = entry.encode(&mut out).unwrap();
    // mark, author, log number, sequence number, payload size 512 in three
    // bytes, digest, signature
    assert_eq!(size, 1 + 32 + 1 + 1 + 3 + 34 + 64);
    assert!(out[size..].iter().all(|byte| *byte == 0x55));
}

#[test]
fn encode_rejects_invalid_entries() {
    let mut out = [0u8; MAX_ENTRY_SIZE];

    assert!(entry_by_hand(1).is_valid());
    assert!(entry_by_hand(2).is_valid());
    assert!(entry_by_hand(4).is_valid());

    let entry = entry_by_hand(0);
    assert!(!entry.is_valid());
    assert_eq!(entry.encode(&mut out), Err(EncodeError::EncodeSeqIsZero));

    let mut entry = entry_by_hand(1);
    entry.backlink = Some(YasmfHash::Blake3(&BACKLINK));
    assert_eq!(entry.encode(&mut out), Err(EncodeError::EncodeEntryHasLinksWhenSeqIsOne));

    let mut entry = entry_by_hand(1);
    entry.lipmaa_link = Some(YasmfHash::Blake3(&LIPMAA_LINK));
    assert_eq!(entry.encode(&mut out), Err(EncodeError::EncodeEntryHasLinksWhenSeqIsOne));

    let mut entry = entry_by_hand(2);
    entry.backlink = None;
    assert_eq!(entry.encode(&mut out), Err(EncodeError::EncodeBacklinkRequired));

    let mut entry = entry_by_hand(4);
    entry.lipmaa_link = None;
    assert_eq!(entry.encode(&mut out), Err(EncodeError::EncodeLipmaaRequired));

    let mut entry = entry_by_hand(4);
    entry.payload_hash = YasmfHash::Blake3(&PAYLOAD_HASH[..31]);
    assert_eq!(entry.encode(&mut out), Err(EncodeError::EncodePayloadHashError));

    let mut entry = entry_by_hand(4);
    entry.backlink = Some(YasmfHash::Blake3(&SIG));
    assert_eq!(entry.encode(&mut out), Err(EncodeError::EncodeBacklinkError));

    let mut entry = entry_by_hand(4);
    entry.lipmaa_link = Some(YasmfHash::Blake3(&[]));
    assert_eq!(entry.encode(&mut out), Err(EncodeError::EncodeLipmaaError));

    let mut entry = entry_by_hand(4);
    entry.sig = Some(Signature(&SIG[..63]));
    assert!(!entry.is_valid());
    assert_eq!(entry.encode(&mut out), Err(EncodeError::EncodeSigError));
    assert_eq!(entry.encode_for_signing(&mut out), Ok(1 + 32 + 1 + 1 + 68 + 3 + 34));

    let mut written = vec![9u8];
    assert_eq!(entry.encode_write(&mut written), Err(EncodeError::EncodeSigError));
    assert_eq!(written, vec![9u8]);
    assert!(out[1 + 32 + 1 + 1 + 68 + 3 + 34..].iter().all(|byte| *byte == 0));
}

#[test]
fn a_skip_link_that_repeats_the_backlink_is_kept() {
    let compact = entry_by_hand(2);
    assert!(compact.lipmaa_link.is_none());
    let mut with_link = entry_by_hand(2);
    with_link.lipmaa_link = Some(YasmfHash::Blake3(&BACKLINK));
    assert!(with_link.is_valid());

    let compact_bytes = compact.to_bytes().0;
    let bytes_with_link = with_link.to_bytes().0;
    assert_eq!(bytes_with_link.len(), compact_bytes.len() + 34);
    // mark, author, log number, sequence number, backlink
    let links_end = 1 + 32 + 1 + 1 + 34;
    assert_eq!(&bytes_with_link[..links_end], &compact_bytes[..links_end]);
    assert_eq!(&bytes_with_link[links_end..links_end + 2], &[0, 32]);
    assert_eq!(&bytes_with_link[links_end + 2..links_end + 34], &BACKLINK[..]);
    assert_eq!(&bytes_with_link[links_end + 34..], &compact_bytes[links_end..]);

    let decoded = decode(&bytes_with_link).unwrap();
    assert_eq!(decoded.seq_num, 2);
    assert_eq!(decoded.lipmaa_link.unwrap().as_bytes(), &BACKLINK[..]);
    assert_eq!(decoded.to_bytes().0, bytes_with_link);

    let decoded = decode(&compact_bytes).unwrap();
    assert!(decoded.lipmaa_link.is_none());
    assert_eq!(decoded.to_bytes().0, compact_bytes);
}

#[test]
fn a_payload_of_no_bytes_is_not_taken_for_a_skip_link() {
    for seq_num in [2u64, 3, 5] {
        for signed in [true, false] {
            let bytes = entry_bytes_by_hand(0, seq_num, 0, signed);
            let entry = decode(&bytes).unwrap();
            assert_eq!(entry.seq_num, seq_num);
            assert_eq!(entry.payload_size, 0);
            assert!(entry.lipmaa_link.is_none());
            assert_eq!(entry.payload_hash.as_bytes(), &PAYLOAD_HASH[..]);
            assert_eq!(entry.to_bytes().0, bytes);
        }
    }
    // A payload of 32 bytes neither.
    let bytes = entry_bytes_by_hand(0, 2, 32, true);
    let entry = decode(&bytes).unwrap();
    assert_eq!(entry.payload_size, 32);
    assert!(entry.lipmaa_link.is_none());
}

#[test]
fn a_skip_link_that_is_cut_short_is_an_error() {
    let mut with_link = entry_by_hand(2);
    with_link.lipmaa_link = Some(YasmfHash::Blake3(&BACKLINK));
    let bytes = with_link.to_bytes().0;
    let links_end = 1 + 32 + 1 + 1 + 34;
    assert_eq!(
        decode(&bytes[..links_end + 20]).err(),
        Some(DecodeError::DecodeLipmaaError { source: HashError::DecodeError })
    );
}

#[test]
fn decode_empty_input() {
    assert_eq!(decode(&[]).err(), Some(DecodeError::DecodeInputIsLengthZero));
}

#[test]
fn decode_rejects_each_broken_field() {
    let good = entry_bytes_by_hand(300, 4, 512, true);
    assert!(decode(&good).is_ok());
    // mark 1, author 32, log number 3, sequence number 1, two links of 34,
    // payload size 3, digest 34, signature 64
    assert_eq!(good.len(), 1 + 32 + 3 + 1 + 68 + 3 + 34 + 64);

    let mut bytes = good.clone();
    bytes[0] = 2;
    assert_eq!(decode(&bytes).err(), Some(DecodeError::DecodeIsEndOfFeedError));

    assert_eq!(decode(&good[..20]).err(), Some(DecodeError::DecodeAuthorError));
    assert_eq!(decode(&good[..33]).err(), Some(DecodeError::DecodeLogIdError));
    assert_eq!(decode(&good[..35]).err(), Some(DecodeError::DecodeLogIdError));
    assert_eq!(decode(&good[..36]).err(), Some(DecodeError::DecodeSeqError));

    let mut bytes = good.clone();
    bytes[36] = 0;
    assert_eq!(decode(&bytes).err(), Some(DecodeError::DecodeSeqIsZero { seq_num: 0 }));

    assert_eq!(
        decode(&good[..37]).err(),
        Some(DecodeError::DecodeBacklinkError { source: HashError::DecodeVaru64Error })
    );
    let mut bytes = good.clone();
    bytes[37] = 1;
    assert_eq!(
        decode(&bytes).err(),
        Some(DecodeError::DecodeBacklinkError { source: HashError::DecodeError })
    );
    let mut bytes = good.clone();
    bytes[38] = 31;
    assert_eq!(
        decode(&bytes).err(),
        Some(DecodeError::DecodeBacklinkError { source: HashError::DecodeError })
    );
    assert_eq!(
        decode(&good[..50]).err(),
        Some(DecodeError::DecodeBacklinkError { source: HashError::DecodeError })
    );

    let mut bytes = good.clone();
    bytes[71] = 2;
    assert_eq!(
        decode(&bytes).err(),
        Some(DecodeError::DecodeLipmaaError { source: HashError::DecodeError })
    );
    assert_eq!(
        decode(&good[..72]).err(),
        Some(DecodeError::DecodeLipmaaError { source: HashError::DecodeVaru64Error })
    );

    assert_eq!(decode(&good[..105]).err(), Some(DecodeError::DecodePayloadSizeError));
    assert_eq!(decode(&good[..107]).err(), Some(DecodeError::DecodePayloadSizeError));

    assert_eq!(
        decode(&good[..108]).err(),
        Some(DecodeError::DecodePayloadHashError { source: HashError::DecodeVaru64Error })
    );
    let mut bytes = good.clone();
    bytes[108] = 200;
    assert_eq!(
        decode(&bytes).err(),
        Some(DecodeError::DecodePayloadHashError { source: HashError::DecodeError })
    );

    assert_eq!(decode(&good[..good.len() - 1]).err(), Some(DecodeError::DecodeSigError));
    let mut bytes = good.clone();
    bytes.push(0);
    assert_eq!(decode(&bytes).err(), Some(DecodeError::DecodeSigError));
    assert!(decode(&good[..good.len() - 64]).unwrap().sig.is_none());
}

#[test]
fn decode_rejects_an_author_that_is_no_key() {
    let mut bytes = entry_bytes_by_hand(0, 1, 0, true);
    let mut found = false;
    for first in 0..=255u8 {
        bytes[1] = first;
        if ed25519_dalek::PublicKey::from_bytes(&bytes[1..33]).is_err() {
            found = true;
            break;
        }
    }
    assert!(found);
    assert_eq!(decode(&bytes).err(), Some(DecodeError::DecodeAuthorError));
}

#[test]
fn decode_rejects_overlong_numbers() {
    // 5 written in two bytes
    let mut bytes = vec![0u8];
    bytes.extend_from_slice(&AUTHOR);
    bytes.extend_from_slice(&[248, 5]);
    bytes.extend_from_slice(&entry_bytes_by_hand(0, 1, 0, true)[34..]);
    assert_eq!(decode(&bytes).err(), Some(DecodeError::DecodeLogIdError));
    assert!(varu64::decode(&[248, 5]).is_err());

    // 255 written in three bytes as sequence number
    let mut bytes = vec![0u8];
    bytes.extend_from_slice(&AUTHOR);
    bytes.extend_from_slice(&[0, 249, 0, 255]);
    bytes.extend_from_slice(&entry_bytes_by_hand(0, 1, 0, true)[35..]);
    assert_eq!(decode(&bytes).err(), Some(DecodeError::DecodeSeqError));

    // 248 in two bytes is the shortest form and is read
    let mut bytes = vec![0u8];
    bytes.extend_from_slice(&AUTHOR);
    bytes.extend_from_slice(&[248, 248]);
    bytes.extend_from_slice(&entry_bytes_by_hand(0, 1, 0, true)[34..]);
    assert_eq!(decode(&bytes).unwrap().log_id, 248);
}

#[test]
fn decode_then_encode_gives_the_bytes_back() {
    for (log_id, seq_num, payload_size) in
        [(0u64, 1u64, 0u64), (247, 2, 248), (65535, 3, 65536), (1 << 40, 13, 1 << 56), (5, 40, 7)]
    {
        for signed in [true, false] {
            let bytes = entry_bytes_by_hand(log_id, seq_num, payload_size, signed);
            let entry = decode(&bytes).unwrap();
            assert_eq!(entry.log_id, log_id);
            assert_eq!(entry.seq_num, seq_num);
            assert_eq!(entry.payload_size, payload_size);
            assert_eq!(entry.sig.is_some(), signed);
            assert_eq!(entry.to_bytes().0, bytes);
        }
    }
}

#[test]
fn decoded_entries_keep_the_link_rules() {
    for seq_num in 1..=60u64 {
        let bytes = entry_bytes_by_hand(0, seq_num, 1, true);
        let entry = decode(&bytes).unwrap();
        assert!(entry.seq_num >= 1);
        assert_eq!(entry.seq_num == 1, entry.backlink.is_none() && entry.lipmaa_link.is_none());
        assert_eq!(entry.seq_num > 1, entry.backlink.is_some());
        assert_eq!(
            entry.lipmaa_link.is_some(),
            seq_num > 1 && lipmaa_link::lipmaa(seq_num) != seq_num - 1
        );
    }
}

#[test]
fn owned_entry_outlives_the_buffer() {
    let owned = {
        let bytes = entry_bytes_by_hand(9, 4, 512, true);
        let entry = decode(&bytes).unwrap();
        into_owned(&entry)
    };
    assert_eq!(owned.log_id, 9);
    assert_eq!(owned.seq_num, 4);
    assert_eq!(owned.payload_size, 512);
    assert_eq!(owned.is_end_of_feed, true);
    assert_eq!(owned.author, AUTHOR);
    assert_eq!(owned.payload_hash.as_ref().as_bytes(), &PAYLOAD_HASH[..]);
    assert_eq!(owned.backlink.as_ref().unwrap().as_ref().as_bytes(), &BACKLINK[..]);
    assert_eq!(owned.lipmaa_link.as_ref().unwrap().as_ref().as_bytes(), &LIPMAA_LINK[..]);
    assert_eq!(owned.sig.as_ref().unwrap().as_ref().as_bytes(), &SIG[..]);
    assert_eq!(owned.as_ref().to_bytes().0, entry_bytes_by_hand(9, 4, 512, true));
    let copy = owned.clone();
    assert_eq!(copy.as_ref().to_bytes().0, entry_bytes_by_hand(9, 4, 512, true));
}

#[test]
fn owned_entry_of_the_first_entry() {
    let bytes = entry_bytes_by_hand(0, 1, 3, false);
    let owned = into_owned(&decode(&bytes).unwrap());
    assert!(owned.backlink.is_none());
    assert!(owned.lipmaa_link.is_none());
    assert!(owned.sig.is_none());
    assert_eq!(owned.seq_num, 1);
    assert_eq!(owned.payload_size, 3);
    assert_eq!(owned.as_ref().to_bytes().0, bytes);
}
