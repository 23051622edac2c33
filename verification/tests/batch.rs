use bamboo_core::entry::batch::verify_batch;
use bamboo_core::entry::decode::Error as DecodeError;
use bamboo_core::entry::publish::publish;
use bamboo_core::entry::verify::Error;
use bamboo_core::entry::MAX_ENTRY_SIZE;
use bamboo_core::keys::Keypair;
use bamboo_core::lipmaa::lipmaa;

fn publish_run(n: u64, key_pair: &Keypair, log_id: u64) -> Vec<Vec<u8>> {
    let mut entries: Vec<Vec<u8>> = Vec::new();
    for seq in 1..=n {
        let payload = format!("message number {}", seq);
        let mut out = [0u8; MAX_ENTRY_SIZE];
        let size = if seq == 1 {
            publish(&mut out, key_pair, log_id, payload.as_bytes(), false, None, None, None)
        } else {
            publish(
                &mut out,
                key_pair,
                log_id,
                payload.as_bytes(),
                false,
                Some(seq - 1),
                Some(&entries[(lipmaa(seq) - 1) as usize][..]),
                Some(&entries[(seq - 2) as usize][..]),
            )
        }
        .unwrap();
        entries.push(out[..size].to_vec());
    }
    entries
}

fn as_slices(entries: &[Vec<u8>]) -> Vec<&[u8]> {
    entries.iter().map(|entry| &entry[..]).collect()
}

#[test]
fn batch_of_a_published_feed() {
    let entries = publish_run(45, &Keypair::from_secret([7u8; 32]), 2);
    assert_eq!(verify_batch(&as_slices(&entries)), Ok(()));
    assert_eq!(verify_batch(&as_slices(&entries[..1])), Ok(()));
    assert_eq!(verify_batch(&[]), Ok(()));
}

#[test]
fn batch_names_the_first_entry_that_fails() {
    let key_pair = Keypair::from_secret([7u8; 32]);
    let mut entries = publish_run(12, &key_pair, 0);

    // A changed signature in the seventh entry: the eighth links to other
    // bytes now, but the seventh fails first.
    let last = entries[6].len() - 1;
    entries[6][last - 5] ^= 0x10;
    assert_eq!(verify_batch(&as_slices(&entries)), Err((6, Error::InvalidSignature)));
    assert_eq!(verify_batch(&as_slices(&entries[..6])), Ok(()));
    assert_eq!(
        verify_batch(&as_slices(&entries[7..])),
        Err((0, Error::LipmaaLinkRequired))
    );

    let mut entries = publish_run(5, &key_pair, 0);
    entries[2] = Vec::new();
    assert_eq!(
        verify_batch(&as_slices(&entries)),
        Err((2, Error::DecodeEntry { source: DecodeError::DecodeInputIsLengthZero }))
    );
}

#[test]
fn batch_checks_the_links_within_the_run() {
    let key_pair = Keypair::from_secret([7u8; 32]);
    let entries = publish_run(6, &key_pair, 0);
    let others = publish_run(6, &key_pair, 1);

    // The third entry of another log in place of the third.
    let mut mixed = entries.clone();
    mixed[2] = others[2].clone();
    assert_eq!(verify_batch(&as_slices(&mixed)), Err((2, Error::BacklinkHashDoesNotMatch)));

    // The first entry of another log in place of the first: the second links
    // to other bytes, and the fourth would too.
    let mut mixed = entries.clone();
    mixed[0] = others[0].clone();
    assert_eq!(verify_batch(&as_slices(&mixed)), Err((1, Error::BacklinkHashDoesNotMatch)));

    // A run that starts after the first entry: the second and third entry
    // need no skip link of their own, the fourth does and finds none.
    assert_eq!(verify_batch(&as_slices(&entries[1..3])), Ok(()));
    assert_eq!(verify_batch(&as_slices(&entries[1..])), Err((2, Error::LipmaaLinkRequired)));

    // Entries out of order.
    let mut swapped = entries.clone();
    swapped.swap(1, 2);
    assert_eq!(verify_batch(&as_slices(&swapped)), Err((1, Error::BacklinkHashDoesNotMatch)));
}
