//! The lock store that queue workers coordinate through: locks that run out
//! by themselves, and capped counters. Workers share no other mutable state.

use vstd::prelude::*;
use crate::keyed::{without_prefix, KeyedTable};
use crate::seqs::{kept, lemma_kept_push, lemma_kept_twice};
use crate::namespace::{
    be_bytes_u32, be_bytes_u64, lemma_be_bytes_u32_injective, lemma_be_bytes_u64_injective,
    push_be_u32, push_be_u64, KV_LOCK_QUEUE_MESSAGE, KV_QUEUE_DOMAIN_SLOT,
};

verus! {

/// Who holds a lock, since when and for how long.
#[derive(Clone, Copy, Debug, PartialEq, Eq, Structural)]
pub struct LockInfo {
    pub holder: u64,
    pub acquired: u64,
    pub ttl: u64,
}

impl LockInfo {
    /// A lock is live until its time to live has passed.
    pub open spec fn live(self, now: u64) -> bool {
        now < self.acquired + self.ttl
    }

    pub fn is_live(&self, now: u64) -> (r: bool)
        ensures
            r == self.live(now),
    {
        now < self.acquired || now - self.acquired < self.ttl
    }
}

/// Whether a key is locked at `now`.
pub open spec fn held(locks: Map<Seq<u8>, LockInfo>, key: Seq<u8>, now: u64) -> bool {
    locks.contains_key(key) && locks[key].live(now)
}

/// Whether `holder` has the key locked at `now`.
pub open spec fn held_by(locks: Map<Seq<u8>, LockInfo>, key: Seq<u8>, holder: u64, now: u64) -> bool {
    held(locks, key, now) && locks[key].holder == holder
}

/// The locks after `holder` has asked for the key at `now`: the key goes to
/// `holder` unless it is locked.
pub open spec fn after_acquire(
    locks: Map<Seq<u8>, LockInfo>,
    key: Seq<u8>,
    holder: u64,
    now: u64,
    ttl: u64,
) -> Map<Seq<u8>, LockInfo> {
    if held(locks, key, now) {
        locks
    } else {
        locks.insert(key, LockInfo { holder, acquired: now, ttl })
    }
}

/// The locks after `holder` has given the key back: only its own lock goes.
pub open spec fn after_release(locks: Map<Seq<u8>, LockInfo>, key: Seq<u8>, holder: u64) -> Map<
    Seq<u8>,
    LockInfo,
> {
    if locks.contains_key(key) && locks[key].holder == holder {
        locks.remove(key)
    } else {
        locks
    }
}

/// The slots that still count at `now`. A slot is taken like a lock, by a
/// holder and for a time; one that was never given back stops counting when
/// its time has passed.
pub open spec fn live_leases(leases: Seq<LockInfo>, now: u64) -> Seq<LockInfo> {
    kept(leases, |lease: LockInfo| lease.live(now))
}

/// The slots taken of a counter; none of one that was never counted.
pub open spec fn leases_of(counters: Map<Seq<u8>, Seq<LockInfo>>, key: Seq<u8>) -> Seq<LockInfo> {
    if counters.contains_key(key) {
        counters[key]
    } else {
        Seq::empty()
    }
}

/// What a counter stands at: the slots that count at `now`.
pub open spec fn count_of(counters: Map<Seq<u8>, Seq<LockInfo>>, key: Seq<u8>, now: u64) -> nat {
    live_leases(leases_of(counters, key), now).len()
}

/// The counters after `holder` has asked for a slot at `now`: below the cap
/// the holder gets one, for `ttl` seconds, and the slots that no longer
/// count are dropped.
pub open spec fn after_increment(
    counters: Map<Seq<u8>, Seq<LockInfo>>,
    key: Seq<u8>,
    holder: u64,
    max: u64,
    now: u64,
    ttl: u64,
) -> Map<Seq<u8>, Seq<LockInfo>> {
    if count_of(counters, key, now) < max {
        counters.insert(
            key,
            live_leases(leases_of(counters, key), now).push(
                LockInfo { holder, acquired: now, ttl },
            ),
        )
    } else {
        counters
    }
}

/// The slots without the first one of `holder`.
pub open spec fn without_lease(leases: Seq<LockInfo>, holder: u64) -> Seq<LockInfo>
    decreases leases.len(),
{
    if leases.len() == 0 {
        leases
    } else if leases[0].holder == holder {
        leases.drop_first()
    } else {
        seq![leases[0]] + without_lease(leases.drop_first(), holder)
    }
}

/// The counters after `holder` has given a slot back.
pub open spec fn after_decrement(
    counters: Map<Seq<u8>, Seq<LockInfo>>,
    key: Seq<u8>,
    holder: u64,
) -> Map<Seq<u8>, Seq<LockInfo>> {
    if counters.contains_key(key) {
        counters.insert(key, without_lease(counters[key], holder))
    } else {
        counters
    }
}

/// What is left of a table after a purge of the keys that begin with a
/// prefix; without a prefix nothing is left.
pub open spec fn after_purge<V>(table: Map<Seq<u8>, V>, prefix: Option<Seq<u8>>) -> Map<
    Seq<u8>,
    V,
> {
    match prefix {
        Some(p) => without_prefix(table, p),
        None => Map::empty(),
    }
}

/// The bytes of an optional prefix.
pub open spec fn prefix_view(prefix: Option<&[u8]>) -> Option<Seq<u8>> {
    match prefix {
        Some(p) => Some(p@),
        None => None,
    }
}

/// An in-memory lock store.
pub struct LockStore {
    locks: KeyedTable<LockInfo>,
    counters: KeyedTable<Vec<LockInfo>>,
}

impl LockStore {
    /// The locks by key, run out or not.
    pub closed spec fn locks(&self) -> Map<Seq<u8>, LockInfo> {
        self.locks@
    }

    /// The slots taken of each counter, by key.
    pub closed spec fn counters(&self) -> Map<Seq<u8>, Seq<LockInfo>> {
        self.counters@.map_values(|leases: Vec<LockInfo>| leases@)
    }

    /// A store without locks or counters.
    pub fn new() -> (r: Self)
        ensures
            r.locks() == Map::<Seq<u8>, LockInfo>::empty(),
            r.counters() == Map::<Seq<u8>, Seq<LockInfo>>::empty(),
    {
        let r = LockStore { locks: KeyedTable::new(), counters: KeyedTable::new() };
        assert(r.counters() =~= Map::<Seq<u8>, Seq<LockInfo>>::empty());
        r
    }

    /// Who holds the key at `now`, if anyone does.
    pub fn holder(&self, key: &[u8], now: u64) -> (r: Option<u64>)
        ensures
            r is Some == held(self.locks(), key@, now),
            r matches Some(holder) ==> held_by(self.locks(), key@, holder, now),
    {
        match self.locks.get(key) {
            None => None,
            Some(info) => if info.is_live(now) {
                Some(info.holder)
            } else {
                None
            },
        }
    }

    /// Whether the key is locked at `now`.
    pub fn is_held(&self, key: &[u8], now: u64) -> (r: bool)
        ensures
            r == held(self.locks(), key@, now),
    {
        self.holder(key, now).is_some()
    }

    /// Asks for the key on behalf of `holder`. The lock is granted unless the
    /// key is locked; a lock that has run out does not count.
    pub fn acquire(&mut self, key: &[u8], holder: u64, now: u64, ttl: u64) -> (r: bool)
        ensures
            r == !held(old(self).locks(), key@, now),
            final(self).locks() == after_acquire(old(self).locks(), key@, holder, now, ttl),
            final(self).counters() == old(self).counters(),
    {
        if self.is_held(key, now) {
            false
        } else {
            self.locks.set(key, LockInfo { holder, acquired: now, ttl });
            true
        }
    }

    /// Gives the key back on behalf of `holder`. Returns whether the lock was
    /// the holder's.
    pub fn release(&mut self, key: &[u8], holder: u64) -> (r: bool)
        ensures
            r == (old(self).locks().contains_key(key@) && old(self).locks()[key@].holder
                == holder),
            final(self).locks() == after_release(old(self).locks(), key@, holder),
            final(self).counters() == old(self).counters(),
    {
        let owned = match self.locks.get(key) {
            None => false,
            Some(info) => info.holder == holder,
        };
        if owned {
            self.locks.remove(key);
        }
        owned
    }

    /// Takes the lock away, whoever holds it.
    pub fn force_release(&mut self, key: &[u8])
        ensures
            final(self).locks() == old(self).locks().remove(key@),
            final(self).counters() == old(self).counters(),
    {
        self.locks.remove(key);
    }

    /// Takes away every lock and counter whose key begins with the prefix;
    /// without a prefix, all of them.
    pub fn purge(&mut self, prefix: Option<&[u8]>)
        ensures
            final(self).locks() == after_purge(old(self).locks(), prefix_view(prefix)),
            final(self).counters() == after_purge(old(self).counters(), prefix_view(prefix)),
    {
        match prefix {
            Some(p) => {
                self.locks.remove_prefix(p);
                self.counters.remove_prefix(p);
                assert(self.counters() =~= without_prefix(old(self).counters(), p@));
            },
            None => {
                self.locks.clear();
                self.counters.clear();
                assert(self.counters() =~= Map::<Seq<u8>, Seq<LockInfo>>::empty());
            },
        }
    }

    /// The slots of the counter that count at `now`.
    fn live(&self, key: &[u8], now: u64) -> (r: Vec<LockInfo>)
        ensures
            r@ == live_leases(leases_of(self.counters(), key@), now),
    {
        let mut live: Vec<LockInfo> = Vec::new();
        let ghost counts = |lease: LockInfo| lease.live(now);
        match self.counters.get(key) {
            None => {
                assert(live@ =~= kept(Seq::<LockInfo>::empty(), counts));
            },
            Some(leases) => {
                let mut i: usize = 0;
                assert(leases@.take(0) =~= Seq::<LockInfo>::empty());
                while i < leases.len()
                    invariant
                        i <= leases.len(),
                        counts == |lease: LockInfo| lease.live(now),
                        live@ == kept(leases@.take(i as int), counts),
                    decreases leases.len() - i,
                {
                    proof {
                        lemma_kept_push(leases@.take(i as int), leases@[i as int], counts);
                        assert(leases@.take(i + 1) =~= leases@.take(i as int).push(
                            leases@[i as int],
                        ));
                    }
                    if leases[i].is_live(now) {
                        live.push(leases[i]);
                    }
                    i += 1;
                }
                assert(leases@.take(leases@.len() as int) =~= leases@);
            },
        }
        live
    }

    /// What the counter stands at.
    pub fn counter(&self, key: &[u8], now: u64) -> (r: usize)
        ensures
            r == count_of(self.counters(), key@, now),
    {
        self.live(key, now).len()
    }

    /// Takes a slot of the counter for `holder` unless the counter has
    /// reached `max`. Returns whether it did. The slot counts for `ttl`
    /// seconds, or until the holder gives it back.
    pub fn atomic_increment(&mut self, key: &[u8], holder: u64, max: u64, now: u64, ttl: u64) -> (r:
        bool)
        ensures
            r == (count_of(old(self).counters(), key@, now) < max),
            final(self).counters() == after_increment(
                old(self).counters(),
                key@,
                holder,
                max,
                now,
                ttl,
            ),
            final(self).locks() == old(self).locks(),
    {
        let mut live = self.live(key, now);
        if (live.len() as u64) < max {
            live.push(LockInfo { holder, acquired: now, ttl });
            let ghost leases = live@;
            self.counters.set(key, live);
            assert(self.counters() =~= old(self).counters().insert(key@, leases));
            true
        } else {
            false
        }
    }

    /// Gives the holder's slot of the counter back.
    pub fn atomic_decrement(&mut self, key: &[u8], holder: u64)
        ensures
            final(self).counters() == after_decrement(old(self).counters(), key@, holder),
            final(self).locks() == old(self).locks(),
    {
        let mut rest: Vec<LockInfo> = Vec::new();
        match self.counters.get(key) {
            None => {
                return ;
            },
            Some(leases) => {
                let mut i: usize = 0;
                let mut found: bool = false;
                assert(leases@.skip(0) =~= leases@);
                assert(rest@ + without_lease(leases@.skip(0), holder) =~= without_lease(
                    leases@,
                    holder,
                ));
                while i < leases.len()
                    invariant
                        i <= leases.len(),
                        rest@ + (if found {
                            leases@.skip(i as int)
                        } else {
                            without_lease(leases@.skip(i as int), holder)
                        }) == without_lease(leases@, holder),
                    decreases leases.len() - i,
                {
                    let ghost tail = leases@.skip(i as int);
                    assert(tail[0] == leases@[i as int]);
                    assert(tail.drop_first() =~= leases@.skip(i + 1));
                    let ghost before = rest@;
                    if !found && leases[i].holder == holder {
                        found = true;
                    } else {
                        rest.push(leases[i]);
                        proof {
                            if found {
                                assert(rest@ + leases@.skip(i + 1) =~= before + tail);
                            } else {
                                assert(rest@ + without_lease(leases@.skip(i + 1), holder)
                                    =~= before + (seq![tail[0]] + without_lease(
                                    tail.drop_first(),
                                    holder,
                                )));
                            }
                        }
                    }
                    i += 1;
                }
                assert(leases@.skip(leases@.len() as int) =~= Seq::<LockInfo>::empty());
                assert(rest@ =~= without_lease(leases@, holder));
            },
        }
        let ghost leases = rest@;
        self.counters.set(key, rest);
        assert(self.counters() =~= old(self).counters().insert(key@, leases));
    }
}

/// The key of the lock on one recipient of one message.
pub open spec fn spec_recipient_key(message_id: u64, recipient: u32) -> Seq<u8> {
    seq![KV_LOCK_QUEUE_MESSAGE] + be_bytes_u64(message_id) + be_bytes_u32(recipient)
}

/// The key of the counter of deliveries in flight to a domain.
pub open spec fn spec_domain_key(domain: Seq<u8>) -> Seq<u8> {
    seq![KV_QUEUE_DOMAIN_SLOT] + domain
}

/// Builds the key of the lock on one recipient of one message.
pub fn recipient_key(message_id: u64, recipient: u32) -> (r: Vec<u8>)
    ensures
        r@ == spec_recipient_key(message_id, recipient),
{
    let mut key: Vec<u8> = Vec::with_capacity(13);
    key.push(KV_LOCK_QUEUE_MESSAGE);
    push_be_u64(&mut key, message_id);
    push_be_u32(&mut key, recipient);
    assert(key@ =~= spec_recipient_key(message_id, recipient));
    key
}

/// Builds the key of the counter of deliveries in flight to a domain.
pub fn domain_key(domain: &[u8]) -> (r: Vec<u8>)
    ensures
        r@ == spec_domain_key(domain@),
{
    let mut key: Vec<u8> = Vec::new();
    key.push(KV_QUEUE_DOMAIN_SLOT);
    let mut i: usize = 0;
    while i < domain.len()
        invariant
            i <= domain.len(),
            key@ == seq![KV_QUEUE_DOMAIN_SLOT] + domain@.subrange(0, i as int),
        decreases domain.len() - i,
    {
        key.push(domain[i]);
        assert(key@ =~= seq![KV_QUEUE_DOMAIN_SLOT] + domain@.subrange(0, i + 1));
        i += 1;
    }
    assert(domain@.subrange(0, domain@.len() as int) =~= domain@);
    key
}

/// Different recipients have different lock keys, and no lock key is a
/// domain's counter key.
pub proof fn lemma_keys_distinct(a_id: u64, a_rcpt: u32, b_id: u64, b_rcpt: u32, domain: Seq<u8>)
    ensures
        spec_recipient_key(a_id, a_rcpt) == spec_recipient_key(b_id, b_rcpt) ==> a_id == b_id
            && a_rcpt == b_rcpt,
        spec_recipient_key(a_id, a_rcpt) != spec_domain_key(domain),
{
    let ka = spec_recipient_key(a_id, a_rcpt);
    let kb = spec_recipient_key(b_id, b_rcpt);
    assert(ka[0] == KV_LOCK_QUEUE_MESSAGE);
    assert(spec_domain_key(domain)[0] == KV_QUEUE_DOMAIN_SLOT);
    if ka == kb {
        assert(be_bytes_u64(a_id) =~= ka.subrange(1, 9));
        assert(be_bytes_u64(b_id) =~= kb.subrange(1, 9));
        assert(be_bytes_u32(a_rcpt) =~= ka.subrange(9, 13));
        assert(be_bytes_u32(b_rcpt) =~= kb.subrange(9, 13));
        lemma_be_bytes_u64_injective(a_id, b_id);
        lemma_be_bytes_u32_injective(a_rcpt, b_rcpt);
    }
}

/// A lock shuts everyone out while it is live: until its time to live has
/// passed, nobody is granted the key and the lock stays with its holder.
pub proof fn lemma_lock_excludes(
    locks: Map<Seq<u8>, LockInfo>,
    key: Seq<u8>,
    holder: u64,
    other: u64,
    at: u64,
    ttl: u64,
    now: u64,
)
    requires
        !held(locks, key, at),
        at <= now < at + ttl,
    ensures
        held_by(after_acquire(locks, key, holder, at, ttl), key, holder, now),
        after_acquire(after_acquire(locks, key, holder, at, ttl), key, other, now, ttl)
            == after_acquire(locks, key, holder, at, ttl),
{
}

/// A lock that its holder never gives back does not stay: once its time to
/// live has passed, the key is granted to whoever asks next.
pub proof fn lemma_expired_lock_is_claimable(
    locks: Map<Seq<u8>, LockInfo>,
    key: Seq<u8>,
    holder: u64,
    other: u64,
    at: u64,
    ttl: u64,
    now: u64,
    next_ttl: u64,
)
    requires
        !held(locks, key, at),
        now >= at + ttl,
        next_ttl > 0,
    ensures
        !held(after_acquire(locks, key, holder, at, ttl), key, now),
        held_by(
            after_acquire(after_acquire(locks, key, holder, at, ttl), key, other, now, next_ttl),
            key,
            other,
            now,
        ),
{
}

/// A capped counter never passes its cap.
pub proof fn lemma_counter_capped(
    counters: Map<Seq<u8>, Seq<LockInfo>>,
    key: Seq<u8>,
    holder: u64,
    max: u64,
    now: u64,
    ttl: u64,
)
    requires
        count_of(counters, key, now) <= max,
    ensures
        count_of(after_increment(counters, key, holder, max, now, ttl), key, now) <= max,
        count_of(counters, key, now) < max && ttl > 0 ==> count_of(
            after_increment(counters, key, holder, max, now, ttl),
            key,
            now,
        ) == count_of(counters, key, now) + 1,
{
    let counts = |lease: LockInfo| lease.live(now);
    let live = live_leases(leases_of(counters, key), now);
    let lease = LockInfo { holder, acquired: now, ttl };
    lemma_kept_twice(leases_of(counters, key), counts);
    lemma_kept_push(live, lease, counts);
}

/// A slot that its holder never gives back does not count for ever: once
/// its time has passed, the counter stands where it would without it.
pub proof fn lemma_expired_slot_is_free(leases: Seq<LockInfo>, lease: LockInfo, now: u64)
    requires
        !lease.live(now),
    ensures
        live_leases(leases.push(lease), now) == live_leases(leases, now),
{
    lemma_kept_push(leases, lease, |l: LockInfo| l.live(now));
}

/// As time passes a counter only falls, unless slots are taken.
pub proof fn lemma_count_falls_with_time(leases: Seq<LockInfo>, now: u64, later: u64)
    requires
        now <= later,
    ensures
        live_leases(leases, later).len() <= live_leases(leases, now).len(),
    decreases leases.len(),
{
    if leases.len() > 0 {
        lemma_count_falls_with_time(leases.drop_first(), now, later);
    }
}

/// Giving a slot back does not raise the counter, and leaves the slots of
/// other holders where they are.
pub proof fn lemma_count_without_lease(leases: Seq<LockInfo>, holder: u64, now: u64)
    ensures
        live_leases(without_lease(leases, holder), now).len() <= live_leases(leases, now).len(),
        forall|p: int|
            0 <= p < leases.len() && (#[trigger] leases[p]).holder != holder ==> without_lease(
                leases,
                holder,
            ).contains(leases[p]),
    decreases leases.len(),
{
    if leases.len() > 0 {
        let rest = leases.drop_first();
        lemma_count_without_lease(rest, holder, now);
        let out = without_lease(leases, holder);
        if leases[0].holder == holder {
            assert forall|p: int| 0 <= p < leases.len() && (#[trigger] leases[p]).holder
                != holder implies out.contains(leases[p]) by {
                assert(rest[p - 1] == leases[p]);
            }
        } else {
            let sub = without_lease(rest, holder);
            assert(out[0] == leases[0]);
            assert(out.drop_first() =~= sub);
            assert forall|p: int| 0 <= p < leases.len() && (#[trigger] leases[p]).holder
                != holder implies out.contains(leases[p]) by {
                if p > 0 {
                    assert(rest[p - 1] == leases[p]);
                    let w = choose|w: int| 0 <= w < sub.len() && sub[w] == rest[p - 1];
                    assert(out[w + 1] == sub[w]);
                }
            }
        }
    }
}

/// The places of the slots that count at `now`.
pub open spec fn live_places(leases: Seq<LockInfo>, now: u64) -> Set<int> {
    Set::new(|p: int| 0 <= p < leases.len() && leases[p].live(now))
}

/// A counter stands at the number of places whose slots count.
pub proof fn lemma_count_is_live_places(leases: Seq<LockInfo>, now: u64)
    ensures
        live_places(leases, now).finite(),
        live_places(leases, now).len() == live_leases(leases, now).len(),
    decreases leases.len(),
{
    let counts = |lease: LockInfo| lease.live(now);
    if leases.len() == 0 {
        assert(live_places(leases, now) =~= Set::<int>::empty());
    } else {
        let rest = leases.drop_last();
        lemma_count_is_live_places(rest, now);
        assert(leases =~= rest.push(leases.last()));
        lemma_kept_push(rest, leases.last(), counts);
        let last = leases.len() - 1;
        if leases.last().live(now) {
            assert(live_places(leases, now) =~= live_places(rest, now).insert(last)) by {
                assert forall|p: int| live_places(leases, now).contains(p) == live_places(
                    rest,
                    now,
                ).insert(last).contains(p) by {
                    if 0 <= p < rest.len() {
                        assert(rest[p] == leases[p]);
                    }
                }
            }
        } else {
            assert(live_places(leases, now) =~= live_places(rest, now)) by {
                assert forall|p: int| live_places(leases, now).contains(p) == live_places(
                    rest,
                    now,
                ).contains(p) by {
                    if 0 <= p < rest.len() {
                        assert(rest[p] == leases[p]);
                    }
                }
            }
        }
    }
}

} // verus!
