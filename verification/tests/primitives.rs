use bamboo_core::bytes::put_bytes;
use bamboo_core::bytes::slices_equal;
use bamboo_core::bytes::to_array_32;
use bamboo_core::entry::decode::Error as DecodeError;
use bamboo_core::entry::encode::Error as EncodeError;
use bamboo_core::entry::publish::Error as PublishFailure;
use bamboo_core::entry::publish_error::PublishError;
use bamboo_core::keys::Keypair;
use bamboo_core::lipmaa::is_lipmaa_required;
use bamboo_core::lipmaa::lipmaa;
use bamboo_core::signature::Error as SignatureError;
use bamboo_core::signature::Signature;
use bamboo_core::yasmf_hash::new_blake3;
use bamboo_core::yasmf_hash::Error as HashError;
use bamboo_core::yasmf_hash::OwnedYasmfHash;
use bamboo_core::yasmf_hash::YasmfHash;

#[test]
fn lipmaa_of_the_first_entries() {
    let expected: [(u64, u64); 16] = [
        (1, 1),
        (2, 1),
        (3, 2),
        (4, 1),
        (5, 4),
        (6, 5),
        (7, 6),
        (8, 4),
        (9, 8),
        (10, 9),
        (11, 10),
        (12, 8),
        (13, 4),
        (14, 13),
        (40, 13),
        (121, 40),
    ];
    for (n, link) in expected.iter() {
        assert_eq!(lipmaa(*n), *link);
    }
}

#[test]
fn lipmaa_agrees_with_lipmaa_link_after_the_first_entry() {
    assert_eq!(lipmaa_link::lipmaa(1), 0);
    assert_eq!(lipmaa(1), 1);
    for n in 2..20000u64 {
        assert_eq!(lipmaa(n), lipmaa_link::lipmaa(n));
    }
    for n in [u64::MAX, u64::MAX - 1, 1 << 63, 6078832729528464400, 6078832729528464401] {
        assert_eq!(lipmaa(n), lipmaa_link::lipmaa(n));
    }
}

#[test]
fn lipmaa_points_back() {
    for n in 1..5000u64 {
        let link = lipmaa(n);
        assert!(link >= 1);
        assert!(n == 1 || link < n);
    }
}

#[test]
fn lipmaa_reaches_the_first_entry_in_few_steps() {
    let mut n = u64::MAX;
    let mut steps = 0;
    while n > 1 {
        n = lipmaa(n);
        steps += 1;
    }
    assert_eq!(n, 1);
    assert!(steps <= 2 * 41);
}

#[test]
fn lipmaa_required_where_the_link_skips() {
    assert!(is_lipmaa_required(1));
    assert!(!is_lipmaa_required(2));
    assert!(!is_lipmaa_required(3));
    assert!(is_lipmaa_required(4));
    assert!(!is_lipmaa_required(5));
    assert!(is_lipmaa_required(8));
    assert!(is_lipmaa_required(13));
    for n in 2..2000u64 {
        assert_eq!(is_lipmaa_required(n), lipmaa_link::is_skip_link(n));
    }
}

#[test]
fn blake3_of_known_inputs() {
    let empty = new_blake3(b"");
    let OwnedYasmfHash::Blake3(bytes) = empty;
    assert_eq!(
        &bytes[..],
        &[
            0xaf, 0x13, 0x49, 0xb9, 0xf5, 0xf9, 0xa1, 0xa6, 0xa0, 0x40, 0x4d, 0xea, 0x36, 0xdc,
            0xc9, 0x49, 0x9b, 0xcb, 0x25, 0xc9, 0xad, 0xc1, 0x12, 0xb7, 0xcc, 0x9a, 0x93, 0xca,
            0xe4, 0x1f, 0x32, 0x62,
        ][..]
    );
    let payload = b"hello bamboo!";
    let OwnedYasmfHash::Blake3(bytes) = new_blake3(payload);
    assert_eq!(&bytes[..], &blake3::hash(payload).as_bytes()[..]);
    assert!(bytes[..] != payload[..]);
    assert_eq!(bytes.len(), 32);
}

#[test]
fn blake3_agrees_with_the_tagged_digest_crate() {
    let payload = b"message number 1";
    let ours = new_blake3(payload);
    let theirs = yasmf_hash::new_blake3(payload);
    let yasmf_hash::YasmfHash::Blake3(their_bytes) = &theirs;
    assert_eq!(ours.as_ref().as_bytes(), &their_bytes[..]);

    let mut our_encoding = [0u8; 34];
    assert_eq!(ours.as_ref().encode(&mut our_encoding), Ok(34));
    let mut their_encoding = [0u8; 34];
    assert_eq!(theirs.encode(&mut their_encoding).unwrap(), 34);
    assert_eq!(our_encoding, their_encoding);
}

#[test]
fn hash_encode_and_decode() {
    let digest = [0xFFu8; 32];
    let hash = YasmfHash::Blake3(&digest);
    let mut out = [0u8; 40];
    assert_eq!(hash.encode(&mut out), Ok(34));
    assert_eq!(out[0], 0);
    assert_eq!(out[1], 32);
    assert_eq!(&out[2..34], &digest[..]);
    assert_eq!(&out[34..], &[0u8; 6][..]);

    let (decoded, rest) = YasmfHash::decode(&out).unwrap();
    assert!(decoded.matches(&hash));
    assert_eq!(rest, &[0u8; 6][..]);
    assert_eq!(decoded.to_owned().as_ref().as_bytes(), &digest[..]);
    assert_eq!(decoded.to_owned().clone().as_ref().as_bytes(), &digest[..]);
    // A container takes fewer bytes than its capacity too.
    let short = YasmfHash::Blake3(&digest[..5]).to_owned();
    assert_eq!(short.as_ref().as_bytes(), &digest[..5]);
    let none = YasmfHash::Blake3(&[]).to_owned();
    assert_eq!(none.as_ref().as_bytes().len(), 0);

    let mut small = [0u8; 33];
    assert_eq!(hash.encode(&mut small), Err(HashError::EncodeError));
    assert_eq!(small, [0u8; 33]);
    assert_eq!(YasmfHash::Blake3(&digest[..31]).encode(&mut out), Err(HashError::EncodeError));
    assert!(!YasmfHash::Blake3(&digest[..31]).matches(&hash));
}

#[test]
fn hash_decode_errors() {
    let mut good = vec![0u8, 32];
    good.extend_from_slice(&[0xFF; 32]);
    assert!(YasmfHash::decode(&good).is_ok());
    assert_eq!(YasmfHash::decode(&[]).err(), Some(HashError::DecodeVaru64Error));
    assert_eq!(YasmfHash::decode(&[248, 1]).err(), Some(HashError::DecodeVaru64Error));
    assert_eq!(YasmfHash::decode(&[0]).err(), Some(HashError::DecodeVaru64Error));
    assert_eq!(YasmfHash::decode(&[0, 248]).err(), Some(HashError::DecodeVaru64Error));
    assert_eq!(YasmfHash::decode(&[1, 32]).err(), Some(HashError::DecodeError));
    assert_eq!(YasmfHash::decode(&good[..33]).err(), Some(HashError::DecodeError));
    let mut wrong_length = good.clone();
    wrong_length[1] = 64;
    assert_eq!(YasmfHash::decode(&wrong_length).err(), Some(HashError::DecodeError));
}

#[test]
fn signature_encode_and_decode() {
    let bytes = [0xDDu8; 64];
    let sig = Signature(&bytes);
    let mut out = [0u8; 70];
    assert_eq!(sig.encode(&mut out), Ok(64));
    assert_eq!(&out[..64], &bytes[..]);
    assert_eq!(&out[64..], &[0u8; 6][..]);
    let (decoded, rest) = Signature::decode(&out).unwrap();
    assert!(decoded.matches(&sig));
    assert_eq!(rest.len(), 6);
    assert_eq!(&decoded.to_owned().0[..], &bytes[..]);
    assert_eq!(decoded.to_owned().as_ref().as_bytes(), &bytes[..]);
    assert_eq!(decoded.to_owned().clone().as_ref().as_bytes(), &bytes[..]);
    assert_eq!(Signature(&bytes[..7]).to_owned().as_ref().as_bytes(), &bytes[..7]);

    let mut small = [0u8; 63];
    assert_eq!(sig.encode(&mut small), Err(SignatureError::EncodeError));
    assert_eq!(Signature(&bytes[..10]).encode(&mut out), Err(SignatureError::EncodeError));
    assert_eq!(Signature::decode(&bytes[..63]).err(), Some(SignatureError::DecodeError));
}

#[test]
fn key_pair_of_a_known_secret() {
    let key_pair = Keypair::from_secret([
        0x9d, 0x61, 0xb1, 0x9d, 0xef, 0xfd, 0x5a, 0x60, 0xba, 0x84, 0x4a, 0xf4, 0x92, 0xec, 0x2c,
        0xc4, 0x44, 0x49, 0xc5, 0x69, 0x7b, 0x32, 0x69, 0x19, 0x70, 0x3b, 0xac, 0x03, 0x1c, 0xae,
        0x7f, 0x60,
    ]);
    assert_eq!(
        key_pair.public,
        [
            0xd7, 0x5a, 0x98, 0x01, 0x82, 0xb1, 0x0a, 0xb7, 0xd5, 0x4b, 0xfe, 0xd3, 0xc9, 0x64,
            0x07, 0x3a, 0x0e, 0xe1, 0x72, 0xf3, 0xda, 0xa6, 0x23, 0x25, 0xaf, 0x02, 0x1a, 0x68,
            0xf7, 0x07, 0x51, 0x1a,
        ]
    );
    assert!(key_pair.secret.is_some());
    let public_only = Keypair::from_public(key_pair.public);
    assert!(public_only.secret.is_none());
    assert_eq!(public_only.public, key_pair.public);
}

#[test]
fn byte_helpers() {
    assert!(slices_equal(b"abc", b"abc"));
    assert!(!slices_equal(b"abc", b"abd"));
    assert!(!slices_equal(b"abc", b"ab"));
    assert!(slices_equal(b"", b""));

    let mut out = [1u8; 6];
    assert_eq!(put_bytes(&mut out, 2, &[7, 8, 9]), 5);
    assert_eq!(out, [1, 1, 7, 8, 9, 1]);
    assert_eq!(put_bytes(&mut out, 6, &[]), 6);
    assert_eq!(out, [1, 1, 7, 8, 9, 1]);

    let mut source = [0u8; 64];
    for (i, byte) in source.iter_mut().enumerate() {
        *byte = i as u8;
    }
    assert_eq!(to_array_32(&source[32..])[..], source[32..]);
    assert_eq!(to_array_32(&source[..32])[..], source[..32]);
}

#[test]
fn publish_error_codes() {
    let source = DecodeError::DecodeInputIsLengthZero;
    let cases = [
        (PublishFailure::PublishAfterEndOfFeed, PublishError::PublishAfterEndOfFeed),
        (PublishFailure::PublishWithIncorrectBacklinkLogId, PublishError::PublishWithIncorrectBacklinkLogId),
        (
            PublishFailure::PublishWithIncorrectLipmaaLinkLogId,
            PublishError::PublishWithIncorrectLipmaaLinkLogId,
        ),
        (PublishFailure::PublishWithoutSecretKey, PublishError::PublishWithoutSecretKey),
        (PublishFailure::PublishWithInvalidKeypair, PublishError::PublishWithInvalidKeypair),
        (PublishFailure::PublishWithoutLipmaaEntry, PublishError::PublishWithoutLipmaaEntry),
        (PublishFailure::DecodeBacklinkEntry { source }, PublishError::DecodeBacklinkEntry),
        (
            PublishFailure::EncodeEntryToOutBuffer { source: EncodeError::EncodeBufferLength },
            PublishError::EncodeEntryToOutBuffer,
        ),
        (PublishFailure::PublishWithoutBacklinkEntry, PublishError::PublishWithoutBacklinkEntry),
        (PublishFailure::DecodeLipmaaEntry { source }, PublishError::DecodeLipmaaEntry),
        (
            PublishFailure::PublishKeypairDidNotMatchBacklinkPublicKey,
            PublishError::PublishKeypairDidNotMatchBacklinkPublicKey,
        ),
        (
            PublishFailure::PublishKeypairDidNotMatchLipmaaLinkPublicKey,
            PublishError::PublishKeypairDidNotMatchLipmaaLinkPublicKey,
        ),
        (PublishFailure::PublishAfterLastSeqNum, PublishError::PublishAfterLastSeqNum),
    ];
    for (error, code) in cases.iter() {
        assert_eq!(PublishError::from(*error), *code);
    }
}
