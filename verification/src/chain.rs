//! The chain of announcements, seen over the host's storage.
//!
//! The program sees only the accounts of one call. What holds of the chain
//! over many calls is stated here, over a model of the storage that the
//! host keeps between calls: the slot of each account, found by the
//! account's reference.

use crate::account::AccountView;
use crate::processor::{
    after_announce, announce_result, announce_verdict, announced_record, announced_state,
};
use crate::state::{empty_ref, AnnounceStateView, AnnouncementView, STATE_LEN};
use crate::wire::written;
use vstd::prelude::*;

verus! {

/// One `Announce` as the host runs it: the reference of the account that
/// takes the announcement, and the payload.
pub struct AnnounceCall {
    pub slot_key: Seq<u8>,
    pub url: Seq<char>,
    pub hash: Seq<u8>,
}

/// The call succeeds on this storage for the registry at `registry`: both
/// accounts exist, and the registry accepts the announcement for an
/// account that is rent exempt.
pub open spec fn call_succeeds(
    ledger: Map<Seq<u8>, Seq<u8>>,
    registry: Seq<u8>,
    call: AnnounceCall,
) -> bool {
    &&& ledger.contains_key(registry)
    &&& ledger.contains_key(call.slot_key)
    &&& announce_verdict(
        ledger[registry],
        ledger[call.slot_key].len(),
        true,
        call.url,
        call.hash,
    ) is Ok
}

/// The storage after the call has succeeded: the new record is written
/// into the announcement's slot, then the new state into the registry's.
pub open spec fn after_call(ledger: Map<Seq<u8>, Seq<u8>>, registry: Seq<u8>, call: AnnounceCall)
    -> Map<Seq<u8>, Seq<u8>> {
    let record = announced_record(ledger[registry], call.url, call.hash);
    let state = announced_state(ledger[registry], call.slot_key);
    ledger.insert(call.slot_key, written(ledger[call.slot_key], record.encoding())).insert(
        registry,
        written(ledger[registry], state.encoding()),
    )
}

/// The storage after the calls, run in order.
pub open spec fn after_calls(
    ledger: Map<Seq<u8>, Seq<u8>>,
    registry: Seq<u8>,
    calls: Seq<AnnounceCall>,
) -> Map<Seq<u8>, Seq<u8>>
    decreases calls.len(),
{
    if calls.len() == 0 {
        ledger
    } else {
        after_call(after_calls(ledger, registry, calls.drop_last()), registry, calls.last())
    }
}

/// Each call succeeds on the storage that the calls before it have left.
pub open spec fn calls_succeed(
    ledger: Map<Seq<u8>, Seq<u8>>,
    registry: Seq<u8>,
    calls: Seq<AnnounceCall>,
) -> bool
    decreases calls.len(),
{
    calls.len() == 0 || {
        &&& calls_succeed(ledger, registry, calls.drop_last())
        &&& call_succeeds(after_calls(ledger, registry, calls.drop_last()), registry, calls.last())
    }
}

/// Each call has an account of its own for its announcement: a reference
/// of 32 bytes that is not the empty reference, not the registry's, and
/// not that of another call.
pub open spec fn fresh_slots(registry: Seq<u8>, calls: Seq<AnnounceCall>) -> bool {
    &&& forall|i: int|
        0 <= i < calls.len() ==> {
            &&& (#[trigger] calls[i]).slot_key.len() == 32
            &&& calls[i].slot_key != empty_ref()
            &&& calls[i].slot_key != registry
        }
    &&& forall|i: int, j: int|
        0 <= i < j < calls.len() ==> (#[trigger] calls[i]).slot_key != (#[trigger] calls[j]).slot_key
}

/// The root of the registry at `registry`.
pub open spec fn root_of(ledger: Map<Seq<u8>, Seq<u8>>, registry: Seq<u8>) -> Seq<u8> {
    AnnounceStateView::decoding(ledger[registry]).unwrap().root_pubkey
}

/// Walking `next` from the reference `from` arrives at the empty reference
/// after exactly `steps` announcements, each of them readable.
pub open spec fn ends_after(ledger: Map<Seq<u8>, Seq<u8>>, from: Seq<u8>, steps: nat) -> bool
    decreases steps,
{
    if steps == 0 {
        from == empty_ref()
    } else {
        &&& from != empty_ref()
        &&& ledger.contains_key(from)
        &&& AnnouncementView::decoding(ledger[from]) is Some
        &&& ends_after(
            ledger,
            AnnouncementView::decoding(ledger[from]).unwrap().next,
            (steps - 1) as nat,
        )
    }
}

/// The references that the walk of `steps` announcements from `from`
/// passes, in the order of the walk.
pub open spec fn trail(ledger: Map<Seq<u8>, Seq<u8>>, from: Seq<u8>, steps: nat) -> Seq<Seq<u8>>
    decreases steps,
{
    if steps == 0 {
        Seq::empty()
    } else {
        seq![from] + trail(
            ledger,
            AnnouncementView::decoding(ledger[from]).unwrap().next,
            (steps - 1) as nat,
        )
    }
}

/// The accounts of the calls, the last call first.
pub open spec fn recent_first(calls: Seq<AnnounceCall>) -> Seq<Seq<u8>> {
    Seq::new(calls.len(), |j: int| calls[calls.len() - 1 - j].slot_key)
}

/// The record that call `i` leaves in its account: its payload, and the
/// account of the call before it, or the empty reference for the first.
pub open spec fn record_of(calls: Seq<AnnounceCall>, i: int) -> AnnouncementView {
    AnnouncementView {
        url: calls[i].url,
        hash: calls[i].hash,
        next: if i == 0 {
            empty_ref()
        } else {
            calls[i - 1].slot_key
        },
    }
}

/// The walk has one length only.
pub proof fn lemma_walk_length(ledger: Map<Seq<u8>, Seq<u8>>, from: Seq<u8>, n: nat, m: nat)
    requires
        ends_after(ledger, from, n),
        ends_after(ledger, from, m),
    ensures
        n == m,
    decreases n,
{
    if n > 0 && m > 0 {
        let next = AnnouncementView::decoding(ledger[from]).unwrap().next;
        lemma_walk_length(ledger, next, (n - 1) as nat, (m - 1) as nat);
    }
}

/// The trail has one reference for each step.
pub proof fn lemma_trail_len(ledger: Map<Seq<u8>, Seq<u8>>, from: Seq<u8>, steps: nat)
    ensures
        trail(ledger, from, steps).len() == steps,
    decreases steps,
{
    if steps > 0 {
        let next = AnnouncementView::decoding(ledger[from]).unwrap().next;
        lemma_trail_len(ledger, next, (steps - 1) as nat);
    }
}

/// A walk depends only on the slots that it passes: a storage that holds
/// the same bytes in them has the same walk.
pub proof fn lemma_walk_frame(
    ledger: Map<Seq<u8>, Seq<u8>>,
    other: Map<Seq<u8>, Seq<u8>>,
    from: Seq<u8>,
    steps: nat,
)
    requires
        ends_after(ledger, from, steps),
        forall|i: int|
            0 <= i < steps ==> {
                let key = #[trigger] trail(ledger, from, steps)[i];
                other.contains_key(key) && other[key] == ledger[key]
            },
    ensures
        ends_after(other, from, steps),
        trail(other, from, steps) == trail(ledger, from, steps),
    decreases steps,
{
    if steps > 0 {
        let next = AnnouncementView::decoding(ledger[from]).unwrap().next;
        let rest = trail(ledger, next, (steps - 1) as nat);
        let all = trail(ledger, from, steps);
        lemma_trail_len(ledger, next, (steps - 1) as nat);
        assert(all[0] == from);
        assert forall|i: int| 0 <= i < steps - 1 implies {
            let key = #[trigger] rest[i];
            other.contains_key(key) && other[key] == ledger[key]
        } by {
            assert(all[i + 1] == rest[i]);
        }
        lemma_walk_frame(ledger, other, next, (steps - 1) as nat);
    }
}

/// The storage follows the program. Where the registry's account and the
/// announcement's account of a successful `Announce` are two accounts of
/// the storage, the call succeeds on the storage and leaves in both slots
/// what the program has left in the accounts.
pub proof fn lemma_call_follows_announce(
    ledger: Map<Seq<u8>, Seq<u8>>,
    accounts: Seq<AccountView>,
    url: Seq<char>,
    hash: Seq<u8>,
)
    requires
        announce_result(accounts, url, hash) is Ok,
        accounts[1].key != accounts[3].key,
        ledger.contains_key(accounts[1].key),
        ledger.contains_key(accounts[3].key),
        ledger[accounts[1].key] == accounts[1].data,
        ledger[accounts[3].key] == accounts[3].data,
    ensures
        ({
            let call = AnnounceCall { slot_key: accounts[3].key, url, hash };
            let end = after_call(ledger, accounts[1].key, call);
            let left = after_announce(accounts, url, hash);
            &&& call_succeeds(ledger, accounts[1].key, call)
            &&& end[accounts[1].key] == left[1].data
            &&& end[accounts[3].key] == left[3].data
        }),
{
}

/// What one successful call leaves behind: the registry's slot reads as
/// the new state and the announcement's slot as the new record, and every
/// other slot is what it was.
pub proof fn lemma_call_effect(ledger: Map<Seq<u8>, Seq<u8>>, registry: Seq<u8>, call: AnnounceCall)
    requires
        call_succeeds(ledger, registry, call),
        call.slot_key.len() == 32,
        call.slot_key != registry,
    ensures
        ({
            let end = after_call(ledger, registry, call);
            let start = AnnounceStateView::decoding(ledger[registry]).unwrap();
            &&& end.contains_key(registry)
            &&& end.contains_key(call.slot_key)
            &&& AnnounceStateView::decoding(end[registry]) == Some(
                AnnounceStateView {
                    is_initialized: true,
                    root_pubkey: call.slot_key,
                    current_index: (start.current_index + 1) as u64,
                },
            )
            &&& start.current_index < u64::MAX
            &&& AnnouncementView::decoding(end[call.slot_key]) == Some(
                AnnouncementView { url: call.url, hash: call.hash, next: start.root_pubkey },
            )
            &&& forall|key: Seq<u8>|
                key != registry && key != call.slot_key ==> (#[trigger] end.contains_key(key)
                    <==> ledger.contains_key(key)) && end[key] == ledger[key]
        }),
{
    let end = after_call(ledger, registry, call);
    let record = announced_record(ledger[registry], call.url, call.hash);
    let state = announced_state(ledger[registry], call.slot_key);
    let slot = ledger[call.slot_key];
    assert(end[registry] == written(ledger[registry], state.encoding()));
    assert(end[call.slot_key] == written(slot, record.encoding()));
    state.lemma_encoding_len();
    state.lemma_round_trip(ledger[registry].skip(STATE_LEN as int));
    record.lemma_round_trip(slot.skip(record.encoding().len() as int));
}

/// The calls but the last have accounts of their own too.
proof fn lemma_fresh_prefix(registry: Seq<u8>, calls: Seq<AnnounceCall>)
    requires
        fresh_slots(registry, calls),
        calls.len() > 0,
    ensures
        fresh_slots(registry, calls.drop_last()),
{
    let before = calls.drop_last();
    assert forall|i: int| 0 <= i < before.len() implies {
        &&& (#[trigger] before[i]).slot_key.len() == 32
        &&& before[i].slot_key != empty_ref()
        &&& before[i].slot_key != registry
    } by {
        assert(before[i] == calls[i]);
    }
    assert forall|i: int, j: int| 0 <= i < j < before.len() implies (#[trigger] before[i]).slot_key
        != (#[trigger] before[j]).slot_key by {
        assert(before[i] == calls[i]);
        assert(before[j] == calls[j]);
    }
}

/// The account of the last call comes first, then those of the calls
/// before it.
proof fn lemma_recent_first_step(calls: Seq<AnnounceCall>)
    requires
        calls.len() > 0,
    ensures
        recent_first(calls) == seq![calls.last().slot_key] + recent_first(calls.drop_last()),
{
    let before = calls.drop_last();
    let joined = seq![calls.last().slot_key] + recent_first(before);
    assert forall|j: int| 0 <= j < calls.len() implies recent_first(calls)[j] == joined[j] by {
        if j > 0 {
            assert(before[before.len() - j] == calls[calls.len() - 1 - j]);
        }
    }
    assert(recent_first(calls) =~= joined);
}

/// One more step at the head of a walk: a readable record at `key` that
/// points to `old_root`, over slots that the walk from `old_root` finds
/// unchanged.
proof fn lemma_walk_step(
    mid: Map<Seq<u8>, Seq<u8>>,
    end: Map<Seq<u8>, Seq<u8>>,
    old_root: Seq<u8>,
    key: Seq<u8>,
    n: nat,
)
    requires
        ends_after(mid, old_root, n),
        key != empty_ref(),
        end.contains_key(key),
        AnnouncementView::decoding(end[key]) matches Some(record) && record.next == old_root,
        forall|i: int|
            0 <= i < n ==> {
                let passed = #[trigger] trail(mid, old_root, n)[i];
                end.contains_key(passed) && end[passed] == mid[passed]
            },
    ensures
        ends_after(end, key, n + 1),
        trail(end, key, n + 1) == seq![key] + trail(mid, old_root, n),
{
    lemma_walk_frame(mid, end, old_root, n);
}

/// The chain stays a chain. On a registry whose root is empty, let any
/// number of `Announce` calls succeed, each into an account of its own.
/// Then the root is the account of the last call; the counter has grown
/// by the number of calls; walking `next` from the root arrives at the
/// empty reference after exactly as many steps as there were calls; the
/// walk passes the accounts of the calls, the most recent first; and each
/// account holds the payload of its call and points to the account of
/// the call before.
pub proof fn lemma_chain_after_calls(
    ledger: Map<Seq<u8>, Seq<u8>>,
    registry: Seq<u8>,
    calls: Seq<AnnounceCall>,
)
    requires
        ledger.contains_key(registry),
        AnnounceStateView::decoding(ledger[registry]) matches Some(state) && state.is_initialized
            && state.root_pubkey == empty_ref(),
        fresh_slots(registry, calls),
        calls_succeed(ledger, registry, calls),
    ensures
        ({
            let end = after_calls(ledger, registry, calls);
            let start = AnnounceStateView::decoding(ledger[registry]).unwrap();
            &&& end.contains_key(registry)
            &&& AnnounceStateView::decoding(end[registry]) matches Some(state) && {
                &&& state.is_initialized
                &&& state.current_index == start.current_index + calls.len()
                &&& state.root_pubkey == if calls.len() == 0 {
                    empty_ref()
                } else {
                    calls.last().slot_key
                }
            }
            &&& ends_after(end, root_of(end, registry), calls.len())
            &&& trail(end, root_of(end, registry), calls.len()) == recent_first(calls)
            &&& forall|i: int|
                #![trigger record_of(calls, i)]
                #![trigger end.contains_key(calls[i].slot_key)]
                0 <= i < calls.len() ==> end.contains_key(calls[i].slot_key)
                    && AnnouncementView::decoding(end[calls[i].slot_key]) == Some(
                    record_of(calls, i),
                )
        }),
    decreases calls.len(),
{
    let end = after_calls(ledger, registry, calls);
    if calls.len() == 0 {
        assert(trail(end, root_of(end, registry), 0) =~= recent_first(calls));
    } else {
        let before = calls.drop_last();
        let call = calls.last();
        let n = before.len();
        let mid = after_calls(ledger, registry, before);
        let old_root = root_of(mid, registry);
        lemma_fresh_prefix(registry, calls);
        lemma_chain_after_calls(ledger, registry, before);
        assert(calls[n as int] == call);
        assert(end == after_call(mid, registry, call));
        lemma_call_effect(mid, registry, call);
        assert(root_of(end, registry) == call.slot_key);

        // The walk from the old root passes the accounts of the calls
        // before, which this call has not touched.
        assert forall|i: int| 0 <= i < n implies {
            let passed = #[trigger] trail(mid, old_root, n)[i];
            end.contains_key(passed) && end[passed] == mid[passed]
        } by {
            assert(trail(mid, old_root, n)[i] == before[n - 1 - i].slot_key);
            assert(before[n - 1 - i] == calls[n - 1 - i]);
            assert(mid.contains_key(before[n - 1 - i].slot_key)) by {
                let _ = record_of(before, n - 1 - i);
            }
        }
        lemma_walk_step(mid, end, old_root, call.slot_key, n);
        lemma_recent_first_step(calls);

        assert forall|i: int|
            #![trigger record_of(calls, i)]
            #![trigger end.contains_key(calls[i].slot_key)]
            0 <= i < calls.len() implies end.contains_key(calls[i].slot_key)
                && AnnouncementView::decoding(end[calls[i].slot_key]) == Some(
                record_of(calls, i),
            ) by {
            if i < n {
                assert(before[i] == calls[i]);
                assert(record_of(before, i) == record_of(calls, i)) by {
                    if i > 0 {
                        assert(before[i - 1] == calls[i - 1]);
                    }
                }
                assert(end[calls[i].slot_key] == mid[calls[i].slot_key]);
            } else if n > 0 {
                assert(before.last() == calls[n - 1]);
            }
        }
    }
}

} // verus!
