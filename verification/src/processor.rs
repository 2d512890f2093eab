//! The state machine of the registry.
//!
//! A call validates first and writes last: when it fails, every slot is
//! byte for byte what it was.

use crate::account::{account_views, Account, AccountView};
use crate::error::{lift, AnnounceError, ProcessError};
use crate::instruction::{AnnounceInstruction, AnnounceInstructionView};
use crate::rent::{check_rent, rent_check, rent_from_account, rent_sysvar};
use crate::state::{
    empty_ref, empty_reference, AnnounceState, AnnounceStateView, Announcement, AnnouncementView,
};
use crate::wire::{lemma_written, written};
use vstd::prelude::*;

verus! {

/// Place of the rent sysvar among the accounts of a call.
pub const RENT_ACCOUNT: usize = 2;

/// Place of the announcement's account among the accounts of an
/// `Announce`.
pub const ANNOUNCEMENT_ACCOUNT: usize = 3;

/// The registry's verdict on an `Init` for the slot `registry`, whose
/// account is rent exempt or not: the slot must be funded and must hold a
/// state that is not yet initialized.
pub open spec fn init_verdict(registry: Seq<u8>, exempt: bool) -> Result<(), AnnounceError> {
    if !exempt {
        Err(AnnounceError::NotRentExempt)
    } else {
        match AnnounceStateView::decoding(registry) {
            Some(state) if !state.is_initialized => Ok(()),
            _ => Err(AnnounceError::InvalidInstruction),
        }
    }
}

/// The announcement that an `Announce` writes while `registry` is the
/// registry's slot: it points to the root of that moment.
pub open spec fn announced_record(registry: Seq<u8>, url: Seq<char>, hash: Seq<u8>)
    -> AnnouncementView {
    AnnouncementView { url, hash, next: AnnounceStateView::decoding(registry).unwrap().root_pubkey }
}

/// The state of the registry after an `Announce` into the account `slot_key`:
/// that account is the root, and one more announcement is counted.
pub open spec fn announced_state(registry: Seq<u8>, slot_key: Seq<u8>) -> AnnounceStateView {
    AnnounceStateView {
        is_initialized: true,
        root_pubkey: slot_key,
        current_index: (AnnounceStateView::decoding(registry).unwrap().current_index + 1) as u64,
    }
}

/// The registry's verdict on an `Announce` of `url` and `hash` while
/// `registry` is the registry's slot and the announcement's account has
/// `room` bytes and is rent exempt or not. The registry must be
/// initialized; then the account must be funded; then the record must fit
/// the account and the counter must have room for one more.
pub open spec fn announce_verdict(
    registry: Seq<u8>,
    room: nat,
    exempt: bool,
    url: Seq<char>,
    hash: Seq<u8>,
) -> Result<(), AnnounceError> {
    match AnnounceStateView::decoding(registry) {
        Some(state) if state.is_initialized => {
            if !exempt {
                Err(AnnounceError::NotRentExempt)
            } else if state.current_index < u64::MAX && announced_record(registry, url, hash).fits(
                room,
            ) {
                Ok(())
            } else {
                Err(AnnounceError::InvalidInstruction)
            }
        },
        _ => Err(AnnounceError::InvalidInstruction),
    }
}

/// The outcome of an `Init` on the accounts of a call. The call must name
/// three accounts, the third must be the rent sysvar, and the rent rule
/// must have an answer for the registry's account; then the registry
/// decides.
pub open spec fn init_result(accounts: Seq<AccountView>) -> Result<(), ProcessError> {
    if accounts.len() <= RENT_ACCOUNT {
        Err(ProcessError::NotEnoughAccountKeys)
    } else {
        match rent_sysvar(accounts[2].key, accounts[2].data) {
            None => Err(ProcessError::InvalidArgument),
            Some(rent) => match rent_check(
                rent,
                accounts[1].lamports,
                accounts[1].data.len() as usize,
            ) {
                None => Err(ProcessError::ArithmeticOverflow),
                Some(exempt) => lift(init_verdict(accounts[1].data, exempt)),
            },
        }
    }
}

/// The accounts of a call after a successful `Init`: the registry's slot
/// starts with the encoding of the fresh state.
pub open spec fn after_init(accounts: Seq<AccountView>) -> Seq<AccountView> {
    accounts.update(
        1,
        accounts[1].with_data(written(accounts[1].data, AnnounceStateView::fresh().encoding())),
    )
}

/// The outcome of an `Announce` on the accounts of a call. The call must
/// name three accounts, the third the rent sysvar; the registry must be
/// initialized; the call must name a fourth account, and the rent rule
/// must have an answer for it; then the registry decides.
pub open spec fn announce_result(accounts: Seq<AccountView>, url: Seq<char>, hash: Seq<u8>)
    -> Result<(), ProcessError> {
    if accounts.len() <= RENT_ACCOUNT {
        Err(ProcessError::NotEnoughAccountKeys)
    } else {
        match rent_sysvar(accounts[2].key, accounts[2].data) {
            None => Err(ProcessError::InvalidArgument),
            Some(rent) => match AnnounceStateView::decoding(accounts[1].data) {
                Some(state) if state.is_initialized => {
                    if accounts.len() <= ANNOUNCEMENT_ACCOUNT {
                        Err(ProcessError::NotEnoughAccountKeys)
                    } else {
                        match rent_check(
                            rent,
                            accounts[3].lamports,
                            accounts[3].data.len() as usize,
                        ) {
                            None => Err(ProcessError::ArithmeticOverflow),
                            Some(exempt) => lift(
                                announce_verdict(
                                    accounts[1].data,
                                    accounts[3].data.len(),
                                    exempt,
                                    url,
                                    hash,
                                ),
                            ),
                        }
                    }
                },
                _ => Err(ProcessError::Custom(AnnounceError::InvalidInstruction)),
            },
        }
    }
}

/// The accounts of a call after a successful `Announce`: the
/// announcement's slot starts with the encoding of the new record, and the
/// registry's slot with that of the new state.
pub open spec fn after_announce(accounts: Seq<AccountView>, url: Seq<char>, hash: Seq<u8>) -> Seq<
    AccountView,
> {
    let record = announced_record(accounts[1].data, url, hash);
    let state = announced_state(accounts[1].data, accounts[3].key);
    accounts.update(3, accounts[3].with_data(written(accounts[3].data, record.encoding()))).update(
        1,
        accounts[1].with_data(written(accounts[1].data, state.encoding())),
    )
}

/// The outcome of a call with the given instruction data.
pub open spec fn process_result(accounts: Seq<AccountView>, instruction_data: Seq<u8>) -> Result<
    (),
    ProcessError,
> {
    match AnnounceInstructionView::decoding(instruction_data) {
        None => Err(ProcessError::Custom(AnnounceError::InvalidInstruction)),
        Some(AnnounceInstructionView::Init) => init_result(accounts),
        Some(AnnounceInstructionView::Announce(a)) => announce_result(accounts, a.url, a.hash),
    }
}

/// The accounts of a call after it has succeeded.
pub open spec fn after_process(accounts: Seq<AccountView>, instruction_data: Seq<u8>) -> Seq<
    AccountView,
> {
    match AnnounceInstructionView::decoding(instruction_data) {
        Some(AnnounceInstructionView::Announce(a)) => after_announce(accounts, a.url, a.hash),
        _ => after_init(accounts),
    }
}

/// `Init` succeeds on a registry account that is rent exempt and holds a
/// state not yet initialized. Afterwards the account reads as
/// initialized, with the empty reference as root.
pub proof fn lemma_init_fresh(accounts: Seq<AccountView>)
    requires
        accounts.len() > RENT_ACCOUNT,
        rent_sysvar(accounts[2].key, accounts[2].data) matches Some(rent) && rent_check(
            rent,
            accounts[1].lamports,
            accounts[1].data.len() as usize,
        ) == Some(true),
        AnnounceStateView::decoding(accounts[1].data) matches Some(state) && !state.is_initialized,
    ensures
        init_result(accounts) is Ok,
        AnnounceStateView::decoding(after_init(accounts)[1].data) matches Some(state)
            && state.is_initialized && state.root_pubkey == empty_ref(),
{
    let fresh = AnnounceStateView::fresh();
    fresh.lemma_encoding_len();
    fresh.lemma_round_trip(accounts[1].data.skip(fresh.encoding().len() as int));
}

/// `Init` works once: on the accounts that a successful `Init` has left,
/// another `Init` fails with `InvalidInstruction`.
pub proof fn lemma_init_once(accounts: Seq<AccountView>)
    requires
        init_result(accounts) is Ok,
    ensures
        init_result(after_init(accounts)) == Err::<(), ProcessError>(
            ProcessError::Custom(AnnounceError::InvalidInstruction),
        ),
{
    let fresh = AnnounceStateView::fresh();
    fresh.lemma_encoding_len();
    fresh.lemma_round_trip(accounts[1].data.skip(fresh.encoding().len() as int));
    lemma_written(accounts[1].data, fresh.encoding());
}

/// `Init` on a registry account below the rent-exemption minimum fails
/// with `NotRentExempt`, whatever the account holds.
pub proof fn lemma_init_not_rent_exempt(accounts: Seq<AccountView>)
    requires
        accounts.len() > RENT_ACCOUNT,
        rent_sysvar(accounts[2].key, accounts[2].data) matches Some(rent) && rent_check(
            rent,
            accounts[1].lamports,
            accounts[1].data.len() as usize,
        ) == Some(false),
    ensures
        init_result(accounts) == Err::<(), ProcessError>(
            ProcessError::Custom(AnnounceError::NotRentExempt),
        ),
{
}

/// `Announce` on a registry that is not initialized fails with
/// `InvalidInstruction`, whatever the announcement and its account.
pub proof fn lemma_announce_uninitialized(
    accounts: Seq<AccountView>,
    url: Seq<char>,
    hash: Seq<u8>,
)
    requires
        accounts.len() > RENT_ACCOUNT,
        rent_sysvar(accounts[2].key, accounts[2].data) is Some,
        AnnounceStateView::decoding(accounts[1].data) matches Some(state) && !state.is_initialized,
    ensures
        announce_result(accounts, url, hash) == Err::<(), ProcessError>(
            ProcessError::Custom(AnnounceError::InvalidInstruction),
        ),
{
}

/// The handlers of the program's instructions.
pub struct Processor;

impl Processor {
    /// Runs one call of the program: decodes the instruction, then
    /// initializes the registry or appends an announcement. On failure no
    /// account has changed.
    pub fn process(program_id: &[u8; 32], accounts: &mut [Account], instruction_data: &[u8]) -> (r:
        Result<(), ProcessError>)
        ensures
            r == process_result(account_views(old(accounts)@), instruction_data@),
            r is Ok ==> account_views(final(accounts)@) == after_process(
                account_views(old(accounts)@),
                instruction_data@,
            ),
            r is Err ==> account_views(final(accounts)@) == account_views(old(accounts)@),
            final(accounts)@.len() == old(accounts)@.len(),
    {
        match AnnounceInstruction::unpack(instruction_data) {
            Err(e) => Err(ProcessError::Custom(e)),
            Ok(AnnounceInstruction::Init(_)) => Self::process_init(accounts, program_id),
            Ok(AnnounceInstruction::Announce(a)) => Self::process_announce(
                accounts,
                a.url,
                a.hash,
                program_id,
            ),
        }
    }

    /// `Init`: checks that the registry's account is rent exempt and not
    /// yet initialized, then writes the fresh state into it. No other
    /// account is touched, and on failure none is.
    pub fn process_init(accounts: &mut [Account], _program_id: &[u8; 32]) -> (r: Result<
        (),
        ProcessError,
    >)
        ensures
            r == init_result(account_views(old(accounts)@)),
            r is Ok ==> account_views(final(accounts)@) == after_init(
                account_views(old(accounts)@),
            ),
            r is Err ==> account_views(final(accounts)@) == account_views(old(accounts)@),
            final(accounts)@.len() == old(accounts)@.len(),
    {
        if accounts.len() <= RENT_ACCOUNT {
            return Err(ProcessError::NotEnoughAccountKeys);
        }
        let rent = match rent_from_account(&accounts[2].key, accounts[2].data.as_slice()) {
            Ok(rent) => rent,
            Err(_) => {
                return Err(ProcessError::InvalidArgument);
            },
        };
        let exempt: bool = match check_rent(&rent, accounts[1].lamports, accounts[1].data.len()) {
            Some(exempt) => exempt,
            None => {
                return Err(ProcessError::ArithmeticOverflow);
            },
        };
        match Self::initialize(&mut accounts[1].data, exempt) {
            Ok(()) => {
                assert(account_views(accounts@) =~= after_init(account_views(old(accounts)@)));
                Ok(())
            },
            Err(e) => {
                assert(account_views(accounts@) =~= account_views(old(accounts)@));
                Err(ProcessError::Custom(e))
            },
        }
    }

    /// `Announce`: checks that the registry is initialized and that the
    /// announcement's account is rent exempt, writes the new record into
    /// that account and makes it the root of the registry. On failure no
    /// account has changed.
    pub fn process_announce(
        accounts: &mut [Account],
        url: String,
        hash: [u8; 32],
        _program_id: &[u8; 32],
    ) -> (r: Result<(), ProcessError>)
        ensures
            r == announce_result(account_views(old(accounts)@), url@, hash@),
            r is Ok ==> account_views(final(accounts)@) == after_announce(
                account_views(old(accounts)@),
                url@,
                hash@,
            ),
            r is Err ==> account_views(final(accounts)@) == account_views(old(accounts)@),
            final(accounts)@.len() == old(accounts)@.len(),
    {
        if accounts.len() <= RENT_ACCOUNT {
            return Err(ProcessError::NotEnoughAccountKeys);
        }
        let rent = match rent_from_account(&accounts[2].key, accounts[2].data.as_slice()) {
            Ok(rent) => rent,
            Err(_) => {
                return Err(ProcessError::InvalidArgument);
            },
        };
        match AnnounceState::unpack(accounts[1].data.as_slice()) {
            Ok(state) => {
                if !state.is_initialized() {
                    return Err(ProcessError::Custom(AnnounceError::InvalidInstruction));
                }
            },
            Err(e) => {
                return Err(ProcessError::Custom(e));
            },
        }
        if accounts.len() <= ANNOUNCEMENT_ACCOUNT {
            return Err(ProcessError::NotEnoughAccountKeys);
        }
        let exempt: bool = match check_rent(&rent, accounts[3].lamports, accounts[3].data.len()) {
            Some(exempt) => exempt,
            None => {
                return Err(ProcessError::ArithmeticOverflow);
            },
        };
        let slot_key: [u8; 32] = accounts[3].key;
        let (head, tail) = accounts.split_at_mut(ANNOUNCEMENT_ACCOUNT);
        let appended = Self::append(
            &mut head[1].data,
            &mut tail[0].data,
            &slot_key,
            exempt,
            url,
            hash,
        );
        match appended {
            Ok(()) => {
                assert(account_views(accounts@) =~= after_announce(
                    account_views(old(accounts)@),
                    url@,
                    hash@,
                ));
                Ok(())
            },
            Err(e) => {
                assert(account_views(accounts@) =~= account_views(old(accounts)@));
                Err(ProcessError::Custom(e))
            },
        }
    }

    /// The registry's part of `Init`, on the slot of its account and the
    /// host's answer on that account's rent. When the verdict is `Ok` the
    /// slot starts with the fresh state: initialized, an empty root, no
    /// announcement counted. Otherwise the slot is unchanged.
    pub fn initialize(registry: &mut [u8], exempt: bool) -> (r: Result<(), AnnounceError>)
        ensures
            r == init_verdict(old(registry)@, exempt),
            r is Ok ==> final(registry)@ == written(
                old(registry)@,
                AnnounceStateView::fresh().encoding(),
            ) && AnnounceStateView::decoding(final(registry)@) == Some(AnnounceStateView::fresh()),
            r is Err ==> final(registry)@ == old(registry)@,
            final(registry)@.len() == old(registry)@.len(),
    {
        if !exempt {
            return Err(AnnounceError::NotRentExempt);
        }
        let mut state = match AnnounceState::unpack(registry) {
            Ok(state) => state,
            Err(e) => {
                return Err(e);
            },
        };
        if state.is_initialized() {
            return Err(AnnounceError::InvalidInstruction);
        }
        state.is_initialized = true;
        state.root_pubkey = empty_reference();
        state.current_index = 0;
        match state.pack(registry) {
            Ok(()) => Ok(()),
            Err(e) => Err(e),
        }
    }

    /// The registry's part of `Announce`, on the slot of the registry, the
    /// slot and reference of the announcement's account and the host's
    /// answer on that account's rent. When the verdict is `Ok` the
    /// announcement's slot starts with the new record, which points to the
    /// old root, and the registry's slot with the new state, whose root is
    /// the announcement's account. Otherwise both slots are unchanged.
    pub fn append(
        registry: &mut [u8],
        slot: &mut [u8],
        slot_key: &[u8; 32],
        exempt: bool,
        url: String,
        hash: [u8; 32],
    ) -> (r: Result<(), AnnounceError>)
        ensures
            r == announce_verdict(old(registry)@, old(slot)@.len(), exempt, url@, hash@),
            r is Ok ==> {
                let record = announced_record(old(registry)@, url@, hash@);
                let state = announced_state(old(registry)@, slot_key@);
                &&& final(slot)@ == written(old(slot)@, record.encoding())
                &&& final(registry)@ == written(old(registry)@, state.encoding())
                &&& AnnouncementView::decoding(final(slot)@) == Some(record)
                &&& AnnounceStateView::decoding(final(registry)@) == Some(state)
            },
            r is Err ==> final(slot)@ == old(slot)@ && final(registry)@ == old(registry)@,
            final(slot)@.len() == old(slot)@.len(),
            final(registry)@.len() == old(registry)@.len(),
    {
        let mut state = match AnnounceState::unpack(registry) {
            Ok(state) => state,
            Err(e) => {
                return Err(e);
            },
        };
        if !state.is_initialized() {
            return Err(AnnounceError::InvalidInstruction);
        }
        if !exempt {
            return Err(AnnounceError::NotRentExempt);
        }
        if state.current_index == u64::MAX {
            return Err(AnnounceError::InvalidInstruction);
        }
        let record = Announcement { url, hash, next: state.root_pubkey };
        match record.pack(slot) {
            Ok(()) => {},
            Err(e) => {
                return Err(e);
            },
        }
        state.current_index += 1;
        state.root_pubkey = *slot_key;
        match state.pack(registry) {
            Ok(()) => Ok(()),
            Err(e) => Err(e),
        }
    }
}

} // verus!
