use announce::account::Account;
use announce::instruction::{Announce, AnnounceInstruction};
use announce::processor::Processor;
use announce::state::{empty_reference, AnnounceState, Announcement};
use solana_program::sysvar::rent::Rent;

const PROGRAM_ID: [u8; 32] = [0x42u8; 32];

fn funded(key: [u8; 32], len: usize) -> Account {
    Account { key, lamports: Rent::default().minimum_balance(len), data: vec![0u8; len] }
}

fn rent_account() -> Account {
    Account {
        key: solana_program::sysvar::rent::id().to_bytes(),
        lamports: 1,
        data: bincode::serialize(&Rent::default()).unwrap(),
    }
}

fn signer() -> Account {
    Account { key: [1u8; 32], lamports: 0, data: Vec::new() }
}

/// A host that keeps accounts between calls and hands the program copies
/// of those a call names.
struct Host {
    registry: Account,
    slots: Vec<Account>,
}

fn new_host() -> Host {
    let mut accounts = vec![signer(), funded([2u8; 32], 41), rent_account()];
    assert_eq!(Processor::process(&PROGRAM_ID, &mut accounts, &[0]), Ok(()));
    Host { registry: accounts.swap_remove(1), slots: Vec::new() }
}

fn announce(host: &mut Host, key: [u8; 32], url: &str, hash: [u8; 32]) {
    let data = AnnounceInstruction::Announce(Announce { url: String::from(url), hash })
        .encode()
        .unwrap();
    let target = funded(key, 68 + url.len());
    let mut accounts = vec![signer(), host.registry.clone(), rent_account(), target];
    assert_eq!(Processor::process(&PROGRAM_ID, &mut accounts, &data), Ok(()));
    host.slots.push(accounts.swap_remove(3));
    host.registry = accounts.swap_remove(1);
}

fn root(host: &Host) -> [u8; 32] {
    AnnounceState::unpack(&host.registry.data).unwrap().root_pubkey
}

/// Follows `next` from the root to the empty reference.
fn walk(host: &Host) -> Vec<Announcement> {
    let mut found = Vec::new();
    let mut at = root(host);
    while at != empty_reference() {
        assert!(found.len() <= host.slots.len());
        let account = host.slots.iter().find(|a| a.key == at).unwrap();
        let record = Announcement::unpack(&account.data).unwrap();
        at = record.next;
        found.push(record);
    }
    found
}

#[test]
fn two_announcements_most_recent_first() {
    let hash_a = solana_program::hash::hash(b"a").to_bytes();
    let hash_b = solana_program::hash::hash(b"b").to_bytes();
    let mut host = new_host();
    assert_eq!(root(&host), [0u8; 32]);
    assert!(walk(&host).is_empty());

    announce(&mut host, [0xa1u8; 32], "https://a.example", hash_a);
    assert_eq!(
        Announcement::unpack(&host.slots[0].data),
        Ok(Announcement { url: String::from("https://a.example"), hash: hash_a, next: [0u8; 32] })
    );
    assert_eq!(root(&host), [0xa1u8; 32]);

    announce(&mut host, [0xb2u8; 32], "https://b.example", hash_b);
    assert_eq!(
        Announcement::unpack(&host.slots[1].data),
        Ok(Announcement {
            url: String::from("https://b.example"),
            hash: hash_b,
            next: [0xa1u8; 32],
        })
    );
    assert_eq!(root(&host), [0xb2u8; 32]);
    assert_eq!(
        Announcement::unpack(&host.slots[0].data).unwrap().next,
        [0u8; 32]
    );

    let urls: Vec<String> = walk(&host).into_iter().map(|r| r.url).collect();
    assert_eq!(urls, vec![String::from("https://b.example"), String::from("https://a.example")]);
    assert_eq!(AnnounceState::unpack(&host.registry.data).unwrap().current_index, 2);
}

#[test]
fn walk_has_one_step_for_each_announcement() {
    let mut host = new_host();
    for n in 0..12u8 {
        assert_eq!(walk(&host).len(), n as usize);
        assert_eq!(AnnounceState::unpack(&host.registry.data).unwrap().current_index, n as u64);
        let mut key = [0x10u8; 32];
        key[0] = n + 1;
        announce(&mut host, key, &format!("https://example/{}", n), [n; 32]);
    }
    let found = walk(&host);
    assert_eq!(found.len(), 12);
    for (step, record) in found.iter().enumerate() {
        let n = 11 - step as u8;
        assert_eq!(record.url, format!("https://example/{}", n));
        assert_eq!(record.hash, [n; 32]);
    }
    assert_eq!(found[11].next, empty_reference());
}

#[test]
fn earlier_records_are_never_rewritten() {
    let mut host = new_host();
    announce(&mut host, [0xa1u8; 32], "first", [1u8; 32]);
    let first = host.slots[0].clone();
    announce(&mut host, [0xb2u8; 32], "second", [2u8; 32]);
    announce(&mut host, [0xc3u8; 32], "third", [3u8; 32]);
    assert_eq!(host.slots[0], first);
}
