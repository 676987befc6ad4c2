//! The housekeeper's purges, as far as they concern the queue: a purge of
//! an account takes its messages and the locks on them, a purge of the
//! in-memory store takes locks and counters.

use vstd::prelude::*;
use crate::entry::MessageView;
use crate::lock::{after_purge, recipient_key, spec_recipient_key, LockInfo, LockStore};
use crate::manage::{HousekeeperEvent, PurgeType, StoreRef};
use crate::queue::{earlier_place, purged, Queue};
use crate::seqs::kept;

verus! {

/// Whether the key locks a recipient at an earlier place than place `j` of
/// message `i`, in a message that the purge takes.
pub open spec fn locks_purged(
    queue: Seq<MessageView>,
    account: Option<u32>,
    i: int,
    j: int,
    key: Seq<u8>,
) -> bool {
    exists|a: int, b: int|
        0 <= a < queue.len() && 0 <= b < queue[a].recipients.len() && earlier_place(a, b, i, j)
            && purged(queue[a], account) && key == #[trigger] spec_recipient_key(
            queue[a].id,
            b as u32,
        )
}

/// The keys of the locks on the recipients of the messages that a purge of
/// the account takes.
pub open spec fn purged_keys(queue: Seq<MessageView>, account: Option<u32>) -> Set<Seq<u8>> {
    Set::new(|key: Seq<u8>| locks_purged(queue, account, queue.len() as int, 0, key))
}

/// Purges an account from the queue: its messages go, whatever state their
/// recipients are in, and so do the locks on those recipients, held or not.
/// Without an account every message goes.
pub fn purge_account(queue: &mut Queue, locks: &mut LockStore, account: Option<u32>)
    requires
        old(queue).wf(),
    ensures
        final(queue).wf(),
        final(queue)@ == kept(old(queue)@, |m: MessageView| !purged(m, account)),
        final(locks).locks() == old(locks).locks().remove_keys(purged_keys(old(queue)@, account)),
        final(locks).counters() == old(locks).counters(),
{
    let ghost before = queue@;
    let ghost held = locks.locks();
    let mut i: usize = 0;
    proof {
        assert(held.remove_keys(Set::new(|key: Seq<u8>| locks_purged(before, account, 0, 0, key)))
            =~= held);
    }
    while i < queue.messages.len()
        invariant
            i <= queue.messages.len(),
            before == queue@,
            queue.wf(),
            locks.counters() == old(locks).counters(),
            locks.locks() == held.remove_keys(
                Set::new(|key: Seq<u8>| locks_purged(before, account, i as int, 0, key)),
            ),
        decreases queue.messages.len() - i,
    {
        let message = &queue.messages[i];
        let ghost m = before[i as int];
        assert(m == message@);
        assert(m.recipients.len() <= u32::MAX);
        let goes = match account {
            Some(id) => message.account == id,
            None => true,
        };
        let mut j: usize = 0;
        while j < message.recipients.len()
            invariant
                j <= message.recipients@.len(),
                i < before.len(),
                m == before[i as int],
                m == message@,
                m.recipients.len() <= u32::MAX,
                goes == purged(m, account),
                locks.counters() == old(locks).counters(),
                locks.locks() == held.remove_keys(
                    Set::new(|key: Seq<u8>| locks_purged(before, account, i as int, j as int, key)),
                ),
            decreases message.recipients@.len() - j,
        {
            let ghost so_far = Set::new(
                |key: Seq<u8>| locks_purged(before, account, i as int, j as int, key),
            );
            let ghost then = Set::new(
                |key: Seq<u8>| locks_purged(before, account, i as int, j + 1, key),
            );
            let ghost this = spec_recipient_key(m.id, j as u32);
            if goes {
                let key = recipient_key(message.id, j as u32);
                locks.force_release(key.as_slice());
            }
            proof {
                assert forall|key: Seq<u8>| then.contains(key) == (so_far.contains(key) || (goes
                    && key == this)) by {
                    if locks_purged(before, account, i as int, j + 1, key) {
                        let (a, b) = choose|a: int, b: int|
                            0 <= a < before.len() && 0 <= b < before[a].recipients.len()
                                && earlier_place(a, b, i as int, j + 1) && purged(
                                before[a],
                                account,
                            ) && key == #[trigger] spec_recipient_key(before[a].id, b as u32);
                        if a == i && b == j {
                        } else {
                            assert(earlier_place(a, b, i as int, j as int));
                        }
                    }
                    if locks_purged(before, account, i as int, j as int, key) {
                        let (a, b) = choose|a: int, b: int|
                            0 <= a < before.len() && 0 <= b < before[a].recipients.len()
                                && earlier_place(a, b, i as int, j as int) && purged(
                                before[a],
                                account,
                            ) && key == #[trigger] spec_recipient_key(before[a].id, b as u32);
                        assert(earlier_place(a, b, i as int, j + 1));
                    }
                    if goes && key == this {
                        assert(earlier_place(i as int, j as int, i as int, j + 1));
                        assert(key == spec_recipient_key(before[i as int].id, j as u32));
                    }
                }
                if goes {
                    assert(held.remove_keys(so_far).remove(this) =~= held.remove_keys(then));
                } else {
                    assert(so_far =~= then);
                }
            }
            j += 1;
        }
        proof {
            let here = Set::new(
                |key: Seq<u8>| locks_purged(before, account, i as int, j as int, key),
            );
            let next = Set::new(|key: Seq<u8>| locks_purged(before, account, i + 1, 0, key));
            assert forall|key: Seq<u8>| here.contains(key) == next.contains(key) by {
                if locks_purged(before, account, i as int, j as int, key) {
                    let (a, b) = choose|a: int, b: int|
                        0 <= a < before.len() && 0 <= b < before[a].recipients.len()
                            && earlier_place(a, b, i as int, j as int) && purged(
                            before[a],
                            account,
                        ) && key == #[trigger] spec_recipient_key(before[a].id, b as u32);
                    assert(earlier_place(a, b, i + 1, 0));
                }
                if locks_purged(before, account, i + 1, 0, key) {
                    let (a, b) = choose|a: int, b: int|
                        0 <= a < before.len() && 0 <= b < before[a].recipients.len()
                            && earlier_place(a, b, i + 1, 0) && purged(before[a], account) && key
                            == #[trigger] spec_recipient_key(before[a].id, b as u32);
                    assert(earlier_place(a, b, i as int, j as int));
                }
            }
            assert(here =~= next);
        }
        i += 1;
    }
    queue.purge_account(account);
}

/// Whether a purge concerns the queue's own state: one of accounts, or one
/// of the default in-memory store, where the locks and counters are.
pub open spec fn concerns_queue(purge: crate::manage::PurgeTypeView) -> bool {
    match purge {
        crate::manage::PurgeTypeView::Account(account) => true,
        crate::manage::PurgeTypeView::Lookup { store, prefix } => store
            is Default,
        _ => false,
    }
}

/// Carries out a purge as far as it concerns the queue. Returns whether it
/// did; a purge of another store is left to whoever keeps that store.
pub fn purge(event: &HousekeeperEvent, queue: &mut Queue, locks: &mut LockStore) -> (r: bool)
    requires
        old(queue).wf(),
    ensures
        final(queue).wf(),
        r == concerns_queue(event@->Purge_0),
        match event {
            HousekeeperEvent::Purge(PurgeType::Account(account)) => {
                &&& final(queue)@ == kept(old(queue)@, |m: MessageView| !purged(m, *account))
                &&& final(locks).locks() == old(locks).locks().remove_keys(
                    purged_keys(old(queue)@, *account),
                )
                &&& final(locks).counters() == old(locks).counters()
            },
            HousekeeperEvent::Purge(PurgeType::Lookup { store: StoreRef::Default, prefix }) => {
                let within: Option<Seq<u8>> = match prefix {
                    Some(p) => Some(p@),
                    None => None,
                };
                &&& final(queue)@ == old(queue)@
                &&& final(locks).locks() == after_purge(old(locks).locks(), within)
                &&& final(locks).counters() == after_purge(old(locks).counters(), within)
            },
            _ => {
                &&& final(queue)@ == old(queue)@
                &&& final(locks).locks() == old(locks).locks()
                &&& final(locks).counters() == old(locks).counters()
            },
        },
{
    match event {
        HousekeeperEvent::Purge(PurgeType::Account(account)) => {
            purge_account(queue, locks, *account);
            true
        },
        HousekeeperEvent::Purge(PurgeType::Lookup { store: StoreRef::Default, prefix }) => {
            match prefix {
                Some(p) => locks.purge(Some(p.as_slice())),
                None => locks.purge(None),
            }
            true
        },
        _ => false,
    }
}

/// After the purge of an account nobody holds a lock on any recipient of
/// its messages, whoever held one before.
pub proof fn lemma_purged_locks_are_free(
    queue: Seq<MessageView>,
    locks: Map<Seq<u8>, LockInfo>,
    account: Option<u32>,
    a: int,
    b: int,
    now: u64,
)
    requires
        0 <= a < queue.len(),
        0 <= b < queue[a].recipients.len(),
        purged(queue[a], account),
    ensures
        !crate::lock::held(
            locks.remove_keys(purged_keys(queue, account)),
            spec_recipient_key(queue[a].id, b as u32),
            now,
        ),
{
    assert(earlier_place(a, b, queue.len() as int, 0));
    assert(locks_purged(
        queue,
        account,
        queue.len() as int,
        0,
        spec_recipient_key(queue[a].id, b as u32),
    ));
}

} // verus!
