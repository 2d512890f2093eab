use announce::error::AnnounceError;
use announce::instruction::{
    Announce, AnnounceInstruction, Init, ANNOUNCE_MIN_LEN, ANNOUNCE_TAG, INIT_TAG,
};

fn sample_announce() -> Announce {
    Announce { url: String::from("https://b.example"), hash: [0x5au8; 32] }
}

fn sample_wire() -> Vec<u8> {
    let mut wire = vec![1u8, 17, 0, 0, 0];
    wire.extend_from_slice(b"https://b.example");
    wire.extend_from_slice(&[0x5au8; 32]);
    wire
}

#[test]
fn tags_and_least_size() {
    assert_eq!(INIT_TAG, 0);
    assert_eq!(ANNOUNCE_TAG, 1);
    assert_eq!(ANNOUNCE_MIN_LEN, 37);
}

#[test]
fn init_is_one_zero_byte() {
    assert_eq!(Init {}.encode(), vec![0u8]);
    assert_eq!(AnnounceInstruction::Init(Init {}).encode(), Ok(vec![0u8]));
}

#[test]
fn init_unpack_wants_its_tag() {
    assert_eq!(Init::unpack(&[0]), Ok(Init {}));
    assert_eq!(Init::unpack(&[0, 7, 7]), Ok(Init {}));
    assert_eq!(Init::unpack(&[]), Err(AnnounceError::InvalidInstruction));
    assert_eq!(Init::unpack(&[1]), Err(AnnounceError::InvalidInstruction));
}

#[test]
fn announce_encodes_tag_length_url_digest() {
    assert_eq!(sample_announce().encode(), Ok(sample_wire()));
    assert_eq!(AnnounceInstruction::Announce(sample_announce()).encode(), Ok(sample_wire()));
}

#[test]
fn announce_encoding_is_borsh_layout() {
    let a = sample_announce();
    let by_borsh = borsh::to_vec(&(1u8, a.url.clone(), a.hash)).unwrap();
    assert_eq!(a.encode(), Ok(by_borsh));
}

#[test]
fn instruction_round_trip() {
    let instructions = [
        AnnounceInstruction::Init(Init {}),
        AnnounceInstruction::Announce(sample_announce()),
        AnnounceInstruction::Announce(Announce { url: String::new(), hash: [0u8; 32] }),
        AnnounceInstruction::Announce(Announce { url: String::from("данные"), hash: [1u8; 32] }),
    ];
    for instruction in instructions {
        let wire = instruction.encode().unwrap();
        assert_eq!(AnnounceInstruction::unpack(&wire), Ok(instruction));
    }
}

#[test]
fn unpack_decodes_init() {
    assert_eq!(AnnounceInstruction::unpack(&[0]), Ok(AnnounceInstruction::Init(Init {})));
}

#[test]
fn unpack_decodes_announce() {
    assert_eq!(
        AnnounceInstruction::unpack(&sample_wire()),
        Ok(AnnounceInstruction::Announce(sample_announce()))
    );
    assert_eq!(Announce::unpack(&sample_wire()), Ok(sample_announce()));
}

#[test]
fn unpack_rejects_empty_buffer() {
    assert_eq!(AnnounceInstruction::unpack(&[]), Err(AnnounceError::InvalidInstruction));
}

#[test]
fn unpack_rejects_unknown_tag() {
    for tag in [2u8, 3, 0x7f, 0xff] {
        let mut wire = sample_wire();
        wire[0] = tag;
        assert_eq!(AnnounceInstruction::unpack(&wire), Err(AnnounceError::InvalidInstruction));
        assert_eq!(AnnounceInstruction::unpack(&[tag]), Err(AnnounceError::InvalidInstruction));
    }
}

#[test]
fn unpack_rejects_truncated_announce() {
    let wire = sample_wire();
    for len in 1..wire.len() {
        assert_eq!(
            AnnounceInstruction::unpack(&wire[..len]),
            Err(AnnounceError::InvalidInstruction)
        );
    }
}

#[test]
fn unpack_rejects_overrunning_length() {
    let mut wire = sample_wire();
    wire[1] = 18;
    assert_eq!(AnnounceInstruction::unpack(&wire), Err(AnnounceError::InvalidInstruction));
    wire[1] = 17;
    wire[4] = 0x80;
    assert_eq!(AnnounceInstruction::unpack(&wire), Err(AnnounceError::InvalidInstruction));
    let mut all_ones = vec![1u8, 0xff, 0xff, 0xff, 0xff];
    all_ones.extend_from_slice(&[0u8; 64]);
    assert_eq!(AnnounceInstruction::unpack(&all_ones), Err(AnnounceError::InvalidInstruction));
}

#[test]
fn unpack_rejects_invalid_utf8() {
    let mut wire = vec![1u8, 3, 0, 0, 0, 0xed, 0xa0, 0x80];
    wire.extend_from_slice(&[0u8; 32]);
    assert_eq!(AnnounceInstruction::unpack(&wire), Err(AnnounceError::InvalidInstruction));
}

#[test]
fn unpack_ignores_bytes_behind_instruction() {
    let mut wire = sample_wire();
    wire.push(0xee);
    assert_eq!(
        AnnounceInstruction::unpack(&wire),
        Ok(AnnounceInstruction::Announce(sample_announce()))
    );
    assert_eq!(AnnounceInstruction::unpack(&[0, 1, 2]), Ok(AnnounceInstruction::Init(Init {})));
}

#[test]
fn announce_unpack_wants_its_tag() {
    let mut wire = sample_wire();
    wire[0] = 0;
    assert_eq!(Announce::unpack(&wire), Err(AnnounceError::InvalidInstruction));
}
