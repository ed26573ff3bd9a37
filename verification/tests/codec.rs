use journal::codec::ENTRY_SPACE;
use journal::codec::decode_entry;
use journal::codec::encode_entry;
use journal::entry::JournalEntryState;
use journal::entry::Pubkey;

fn entry(owner: u8, title: &[u8], message: &[u8]) -> JournalEntryState {
    JournalEntryState {
        owner: Pubkey { bytes: [owner; 32] },
        title: title.to_vec(),
        message: message.to_vec(),
    }
}

#[test]
fn image_is_fixed_size_whatever_the_field_lengths() {
    assert_eq!(ENTRY_SPACE, 8 + 32 + 4 + 50 + 4 + 1000);
    assert_eq!(encode_entry(&entry(1, b"", b"")).len(), ENTRY_SPACE);
    assert_eq!(encode_entry(&entry(1, b"Day 1", b"Went for a walk")).len(), ENTRY_SPACE);
    assert_eq!(
        encode_entry(&entry(1, &vec![b't'; 50], &vec![b'm'; 1000])).len(),
        ENTRY_SPACE
    );
}

#[test]
fn image_layout_is_tag_owner_and_length_prefixed_fields() {
    let image = encode_entry(&entry(7, b"Day 1", b"Went for a walk"));
    assert_eq!(&image[0..8], &[0u8; 8]);
    assert_eq!(&image[8..40], &[7u8; 32]);
    assert_eq!(&image[40..44], &5u32.to_le_bytes());
    assert_eq!(&image[44..49], b"Day 1");
    assert_eq!(&image[49..53], &15u32.to_le_bytes());
    assert_eq!(&image[53..68], b"Went for a walk");
    assert!(image[68..].iter().all(|&x| x == 0));
}

#[test]
fn decode_returns_the_encoded_record() {
    let e = entry(3, b"Day 1", b"Went for a walk");
    let back = decode_entry(&encode_entry(&e)).expect("image should decode");
    assert_eq!(back, e);
    let full = entry(9, &vec![b't'; 50], &vec![b'm'; 1000]);
    assert_eq!(decode_entry(&encode_entry(&full)), Some(full));
    let empty = entry(0, b"", b"");
    assert_eq!(decode_entry(&encode_entry(&empty)), Some(empty));
}

#[test]
fn decode_rejects_bytes_that_are_no_record_image() {
    assert_eq!(decode_entry(&vec![0u8; ENTRY_SPACE - 1]), None);
    assert_eq!(decode_entry(&Vec::new()), None);

    let mut bad_tag = encode_entry(&entry(1, b"Day 1", b"text"));
    bad_tag[3] = 1;
    assert_eq!(decode_entry(&bad_tag), None);

    let mut bad_title_len = encode_entry(&entry(1, b"Day 1", b"text"));
    bad_title_len[40..44].copy_from_slice(&51u32.to_le_bytes());
    assert_eq!(decode_entry(&bad_title_len), None);

    let mut bad_message_len = encode_entry(&entry(1, b"Day 1", b"text"));
    bad_message_len[49..53].copy_from_slice(&1001u32.to_le_bytes());
    assert_eq!(decode_entry(&bad_message_len), None);

    let mut bad_padding = encode_entry(&entry(1, b"Day 1", b"text"));
    let last = bad_padding.len() - 1;
    bad_padding[last] = 0xff;
    assert_eq!(decode_entry(&bad_padding), None);
}
