use announce::error::AnnounceError;
use announce::state::{
    empty_reference, AnnounceState, Announcement, ANNOUNCEMENT_MIN_LEN, STATE_LEN,
};

fn sample_state() -> AnnounceState {
    AnnounceState {
        is_initialized: true,
        root_pubkey: [7u8; 32],
        current_index: 0x0102_0304_0506_0708,
    }
}

fn sample_announcement() -> Announcement {
    Announcement {
        url: String::from("https://a.example"),
        hash: [0xaau8; 32],
        next: [3u8; 32],
    }
}

#[test]
fn layout_sizes() {
    assert_eq!(STATE_LEN, 41);
    assert_eq!(ANNOUNCEMENT_MIN_LEN, 68);
}

#[test]
fn empty_reference_is_all_zero() {
    assert_eq!(empty_reference(), [0u8; 32]);
}

#[test]
fn state_encodes_flag_reference_counter() {
    let mut expected = vec![1u8];
    expected.extend_from_slice(&[7u8; 32]);
    expected.extend_from_slice(&[8, 7, 6, 5, 4, 3, 2, 1]);
    assert_eq!(sample_state().encode(), expected);
}

#[test]
fn state_encoding_is_borsh_layout() {
    let state = sample_state();
    let by_borsh =
        borsh::to_vec(&(state.is_initialized, state.root_pubkey, state.current_index)).unwrap();
    assert_eq!(state.encode(), by_borsh);
    let blank = AnnounceState { is_initialized: false, root_pubkey: [0u8; 32], current_index: 0 };
    assert_eq!(blank.encode(), borsh::to_vec(&(false, [0u8; 32], 0u64)).unwrap());
}

#[test]
fn state_round_trip() {
    let states = [
        sample_state(),
        AnnounceState { is_initialized: false, root_pubkey: [0u8; 32], current_index: 0 },
        AnnounceState { is_initialized: true, root_pubkey: [0xffu8; 32], current_index: u64::MAX },
        AnnounceState { is_initialized: false, root_pubkey: [1u8; 32], current_index: 256 },
    ];
    for state in states {
        assert_eq!(AnnounceState::unpack(&state.encode()), Ok(state));
    }
}

#[test]
fn state_is_initialized_reads_flag() {
    assert!(sample_state().is_initialized());
    let blank = AnnounceState { is_initialized: false, root_pubkey: [0u8; 32], current_index: 0 };
    assert!(!blank.is_initialized());
}

#[test]
fn state_unpack_rejects_short_buffers() {
    let full = sample_state().encode();
    for len in 0..STATE_LEN {
        assert_eq!(AnnounceState::unpack(&full[..len]), Err(AnnounceError::InvalidInstruction));
    }
}

#[test]
fn state_unpack_all_zero_slot_is_uninitialized() {
    let state = AnnounceState::unpack(&[0u8; 41]).unwrap();
    assert_eq!(
        state,
        AnnounceState { is_initialized: false, root_pubkey: [0u8; 32], current_index: 0 }
    );
}

#[test]
fn state_unpack_rejects_flag_above_one() {
    let mut bytes = sample_state().encode();
    bytes[0] = 2;
    assert_eq!(AnnounceState::unpack(&bytes), Err(AnnounceError::InvalidInstruction));
    bytes[0] = 0xff;
    assert_eq!(AnnounceState::unpack(&bytes), Err(AnnounceError::InvalidInstruction));
}

#[test]
fn state_unpack_ignores_bytes_behind_layout() {
    let mut bytes = sample_state().encode();
    bytes.extend_from_slice(&[9, 9, 9]);
    assert_eq!(AnnounceState::unpack(&bytes), Ok(sample_state()));
}

#[test]
fn state_unpack_reads_little_endian_counter() {
    let mut bytes = vec![0u8; 41];
    bytes[33] = 0x34;
    bytes[34] = 0x12;
    assert_eq!(AnnounceState::unpack(&bytes).unwrap().current_index, 0x1234);
    bytes[40] = 0x80;
    assert_eq!(AnnounceState::unpack(&bytes).unwrap().current_index, 0x8000_0000_0000_1234);
}

#[test]
fn state_pack_overwrites_head_and_keeps_length() {
    let mut slot = vec![0x55u8; 50];
    assert_eq!(sample_state().pack(&mut slot), Ok(()));
    assert_eq!(slot.len(), 50);
    assert_eq!(&slot[..41], &sample_state().encode()[..]);
    assert_eq!(&slot[41..], &[0x55u8; 9]);
    assert_eq!(AnnounceState::unpack(&slot), Ok(sample_state()));
}

#[test]
fn state_pack_into_exact_slot() {
    let mut slot = vec![0u8; 41];
    assert_eq!(sample_state().pack(&mut slot), Ok(()));
    assert_eq!(slot, sample_state().encode());
}

#[test]
fn state_pack_refuses_short_slot_and_writes_nothing() {
    let mut slot = vec![0x55u8; 40];
    assert_eq!(sample_state().pack(&mut slot), Err(AnnounceError::InvalidInstruction));
    assert_eq!(slot, vec![0x55u8; 40]);
    let mut none: Vec<u8> = Vec::new();
    assert_eq!(sample_state().pack(&mut none), Err(AnnounceError::InvalidInstruction));
}

#[test]
fn announcement_encodes_length_url_digest_reference() {
    let mut expected = vec![17u8, 0, 0, 0];
    expected.extend_from_slice(b"https://a.example");
    expected.extend_from_slice(&[0xaau8; 32]);
    expected.extend_from_slice(&[3u8; 32]);
    assert_eq!(sample_announcement().encode(), Ok(expected));
}

#[test]
fn announcement_encoding_is_borsh_layout() {
    let record = sample_announcement();
    let by_borsh = borsh::to_vec(&(record.url.clone(), record.hash, record.next)).unwrap();
    assert_eq!(record.encode(), Ok(by_borsh));
}

#[test]
fn announcement_length_prefix_counts_utf8_bytes() {
    let record = Announcement { url: String::from("é€"), hash: [0u8; 32], next: [0u8; 32] };
    let bytes = record.encode().unwrap();
    assert_eq!(&bytes[..4], &[5, 0, 0, 0]);
    assert_eq!(&bytes[4..9], &[0xc3, 0xa9, 0xe2, 0x82, 0xac]);
    assert_eq!(bytes.len(), 68 + 5);
    assert_eq!(Announcement::unpack(&bytes), Ok(record));
}

#[test]
fn announcement_long_url_uses_second_length_byte() {
    let record = Announcement { url: "x".repeat(300), hash: [1u8; 32], next: [2u8; 32] };
    let bytes = record.encode().unwrap();
    assert_eq!(&bytes[..4], &[0x2c, 0x01, 0, 0]);
    assert_eq!(Announcement::unpack(&bytes), Ok(record));
}

#[test]
fn announcement_round_trip() {
    let records = [
        sample_announcement(),
        Announcement { url: String::new(), hash: [0u8; 32], next: [0u8; 32] },
        Announcement { url: String::from("ipfs://Qm\u{1F600}"), hash: [9u8; 32], next: [8u8; 32] },
    ];
    for record in records {
        let bytes = record.encode().unwrap();
        assert_eq!(Announcement::unpack(&bytes), Ok(record));
    }
}

#[test]
fn announcement_unpack_rejects_short_buffers() {
    let full = sample_announcement().encode().unwrap();
    for len in 0..full.len() {
        assert_eq!(Announcement::unpack(&full[..len]), Err(AnnounceError::InvalidInstruction));
    }
}

#[test]
fn announcement_unpack_rejects_overrunning_length() {
    let mut bytes = sample_announcement().encode().unwrap();
    bytes[0] = 18;
    assert_eq!(Announcement::unpack(&bytes), Err(AnnounceError::InvalidInstruction));
    bytes[0] = 17;
    bytes[3] = 0xff;
    assert_eq!(Announcement::unpack(&bytes), Err(AnnounceError::InvalidInstruction));
}

#[test]
fn announcement_unpack_rejects_invalid_utf8() {
    let mut bytes = vec![2u8, 0, 0, 0, 0xc3, 0x28];
    bytes.extend_from_slice(&[0u8; 64]);
    assert_eq!(Announcement::unpack(&bytes), Err(AnnounceError::InvalidInstruction));
    let mut lone = vec![1u8, 0, 0, 0, 0x80];
    lone.extend_from_slice(&[0u8; 64]);
    assert_eq!(Announcement::unpack(&lone), Err(AnnounceError::InvalidInstruction));
}

#[test]
fn announcement_unpack_all_zero_slot_is_empty_record() {
    let record = Announcement::unpack(&[0u8; 100]).unwrap();
    assert_eq!(record, Announcement { url: String::new(), hash: [0u8; 32], next: [0u8; 32] });
}

#[test]
fn announcement_unpack_ignores_bytes_behind_layout() {
    let mut bytes = sample_announcement().encode().unwrap();
    bytes.extend_from_slice(&[1, 2, 3, 4]);
    assert_eq!(Announcement::unpack(&bytes), Ok(sample_announcement()));
}

#[test]
fn announcement_pack_overwrites_head_and_keeps_length() {
    let image = sample_announcement().encode().unwrap();
    let mut slot = vec![0x11u8; image.len() + 7];
    assert_eq!(sample_announcement().pack(&mut slot), Ok(()));
    assert_eq!(slot.len(), image.len() + 7);
    assert_eq!(&slot[..image.len()], &image[..]);
    assert_eq!(&slot[image.len()..], &[0x11u8; 7]);
    assert_eq!(Announcement::unpack(&slot), Ok(sample_announcement()));
}

#[test]
fn announcement_pack_refuses_short_slot_and_writes_nothing() {
    let image = sample_announcement().encode().unwrap();
    let mut slot = vec![0x11u8; image.len() - 1];
    assert_eq!(sample_announcement().pack(&mut slot), Err(AnnounceError::InvalidInstruction));
    assert_eq!(slot, vec![0x11u8; image.len() - 1]);
}
