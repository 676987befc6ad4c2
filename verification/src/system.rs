//! Any number of workers on one lock store: the moves that the whole can
//! make, and what holds of every state that such moves lead to.

use vstd::prelude::*;
use crate::lock::{
    after_acquire, after_decrement, after_increment, after_release, count_of, held, held_by,
    leases_of, lemma_count_falls_with_time, lemma_count_is_live_places, lemma_count_without_lease,
    live_leases, live_places, without_lease, LockInfo,
};
use crate::seqs::{kept, lemma_kept_members, lemma_kept_push, lemma_kept_twice};
use crate::manager::{ActionView, CandidateView, EventView, Phase, QueueConfig, WorkerView};

verus! {

/// The workers, the locks and counters they share, and the time.
pub struct System {
    pub now: u64,
    pub locks: Map<Seq<u8>, LockInfo>,
    pub counters: Map<Seq<u8>, Seq<LockInfo>>,
    /// How many deliveries to one domain may be in flight at once.
    pub limit: u64,
    pub workers: Seq<WorkerView>,
}

/// One move of the whole.
pub enum Move {
    /// Time passes until `to`.
    Tick { to: u64 },
    /// The lock store answers the worker's request for a lock.
    LockAnswer { worker: int },
    /// The lock store takes the lock that the worker gives back.
    ReleaseAnswer { worker: int },
    /// The lock store answers the worker's request for a slot of a domain.
    SlotAnswer { worker: int },
    /// The lock store takes the slot that the worker gives back.
    SlotReleaseAnswer { worker: int },
    /// Another event reaches the worker.
    Deliver { worker: int, event: EventView },
    /// The worker dies and starts afresh. It gives nothing back.
    Crash { worker: int },
}

/// A worker as it starts.
pub open spec fn fresh(id: u64, config: QueueConfig) -> WorkerView {
    WorkerView {
        id,
        config,
        phase: Phase::Idle,
        batch: Seq::empty(),
        cursor: 0,
        claimed_at: 0,
        attempt_started: 0,
        timer: None,
        rescan: false,
    }
}

impl System {
    /// The workers are well formed, they go by the same limit, and no two
    /// share an identity.
    pub open spec fn wf(self) -> bool {
        &&& forall|i: int| 0 <= i < self.workers.len() ==> (#[trigger] self.workers[i]).wf()
        &&& forall|i: int|
            0 <= i < self.workers.len() ==> (#[trigger] self.workers[i]).config.concurrency
                == self.limit
        &&& forall|i: int, j: int|
            0 <= i < j < self.workers.len() ==> (#[trigger] self.workers[i]).id != (
            #[trigger] self.workers[j]).id
    }

    /// Every worker is idle, and no counter stands above the limit.
    pub open spec fn initial(self) -> bool {
        &&& forall|i: int|
            0 <= i < self.workers.len() ==> (#[trigger] self.workers[i]).phase == Phase::Idle
        &&& self.capped()
    }

    /// No counter stands above the limit.
    pub open spec fn capped(self) -> bool {
        forall|key: Seq<u8>| #[trigger] count_of(self.counters, key, self.now) <= self.limit
    }

    /// Whether the move can be made. Time does not run back, and it does not
    /// pass the deadline of an attempt that is under way: the executor ends
    /// an attempt in time. The lock store answers requests that were made.
    pub open spec fn enabled(self, m: Move) -> bool {
        match m {
            Move::Tick { to } => self.now <= to && forall|i: int|
                0 <= i < self.workers.len() && (#[trigger] self.workers[i]).phase
                    == Phase::Attempting ==> to <= self.workers[i].attempt_started
                    + self.workers[i].config.attempt_timeout,
            Move::LockAnswer { worker } => 0 <= worker < self.workers.len()
                && self.workers[worker].phase == Phase::Locking,
            Move::ReleaseAnswer { worker } => 0 <= worker < self.workers.len()
                && self.workers[worker].phase == Phase::ReleasingLock,
            Move::SlotAnswer { worker } => 0 <= worker < self.workers.len()
                && self.workers[worker].phase == Phase::TakingSlot,
            Move::SlotReleaseAnswer { worker } => 0 <= worker < self.workers.len()
                && self.workers[worker].phase == Phase::ReleasingSlot,
            Move::Deliver { worker, event } => 0 <= worker < self.workers.len() && !(event
                is Lock) && !(event is LockReleased) && !(event is Slot) && !(event
                is SlotReleased),
            Move::Crash { worker } => 0 <= worker < self.workers.len(),
        }
    }

    /// The state after a move.
    pub open spec fn next(self, m: Move) -> System {
        match m {
            Move::Tick { to } => System { now: to, ..self },
            Move::LockAnswer { worker } => {
                let w = self.workers[worker];
                let key = w.current().lock_key();
                let granted = !held(self.locks, key, self.now);
                System {
                    locks: after_acquire(self.locks, key, w.id, self.now, w.config.lock_ttl()),
                    workers: self.workers.update(
                        worker,
                        w.step(EventView::Lock { granted }, self.now).0,
                    ),
                    ..self
                }
            },
            Move::ReleaseAnswer { worker } => {
                let w = self.workers[worker];
                System {
                    locks: after_release(self.locks, w.current().lock_key(), w.id),
                    workers: self.workers.update(
                        worker,
                        w.step(EventView::LockReleased, self.now).0,
                    ),
                    ..self
                }
            },
            Move::SlotAnswer { worker } => {
                let w = self.workers[worker];
                let key = w.current().slot_key();
                let granted = count_of(self.counters, key, self.now) < w.config.concurrency;
                System {
                    counters: after_increment(
                        self.counters,
                        key,
                        w.id,
                        w.config.concurrency,
                        self.now,
                        w.config.lock_ttl(),
                    ),
                    workers: self.workers.update(
                        worker,
                        w.step(EventView::Slot { granted }, self.now).0,
                    ),
                    ..self
                }
            },
            Move::SlotReleaseAnswer { worker } => {
                let w = self.workers[worker];
                System {
                    counters: after_decrement(self.counters, w.current().slot_key(), w.id),
                    workers: self.workers.update(
                        worker,
                        w.step(EventView::SlotReleased, self.now).0,
                    ),
                    ..self
                }
            },
            Move::Deliver { worker, event } => System {
                workers: self.workers.update(
                    worker,
                    self.workers[worker].step(event, self.now).0,
                ),
                ..self
            },
            Move::Crash { worker } => System {
                workers: self.workers.update(
                    worker,
                    fresh(self.workers[worker].id, self.workers[worker].config),
                ),
                ..self
            },
        }
    }

    /// The state after a run of moves; a move that cannot be made is left out.
    pub open spec fn after(self, moves: Seq<Move>) -> System
        decreases moves.len(),
    {
        if moves.len() == 0 {
            self
        } else {
            let before = self.after(moves.drop_last());
            if before.enabled(moves.last()) {
                before.next(moves.last())
            } else {
                before
            }
        }
    }

    /// Whether the lock on the worker's candidate is the worker's own, taken
    /// no earlier than the worker asked for it.
    pub open spec fn owns(self, w: WorkerView) -> bool {
        let key = w.current().lock_key();
        &&& self.locks.contains_key(key)
        &&& self.locks[key].holder == w.id
        &&& self.locks[key].acquired >= w.claimed_at
        &&& self.locks[key].ttl == w.config.lock_ttl()
    }

    /// Whether the slot at place `p` of the counter of the worker's domain is
    /// the worker's own, taken no earlier than the worker asked for its lock.
    pub open spec fn slot_at(self, w: WorkerView, p: int) -> bool {
        let leases = leases_of(self.counters, w.current().slot_key());
        &&& 0 <= p < leases.len()
        &&& leases[p].holder == w.id
        &&& leases[p].acquired >= w.claimed_at
        &&& leases[p].ttl == w.config.lock_ttl()
    }

    /// Whether the worker has a slot of its candidate's domain.
    pub open spec fn has_slot(self, w: WorkerView) -> bool {
        exists|p: int| #[trigger] self.slot_at(w, p)
    }

    /// What a worker can rely on as to its slot: from the slot's grant to the
    /// attempt it has one for as long as its own reckoning says so, and
    /// during the attempt it has one.
    pub open spec fn slot_inv(self, w: WorkerView) -> bool {
        &&& (w.phase == Phase::Marking || w.phase == Phase::Resolving) && self.now < w.claimed_at
            + w.config.lock_ttl() ==> self.has_slot(w)
        &&& w.phase == Phase::Attempting ==> self.has_slot(w)
    }

    /// What a worker can rely on: between the lock's grant and the attempt,
    /// the lock is its own for as long as its own reckoning says so; during
    /// the attempt the lock is its own and outlasts the attempt's deadline.
    pub open spec fn worker_inv(self, w: WorkerView) -> bool {
        &&& w.phase.on_candidate() ==> w.claimed_at <= self.now
        &&& (w.phase == Phase::TakingSlot || w.phase == Phase::Marking || w.phase
            == Phase::Resolving) && self.now < w.claimed_at + w.config.lock_ttl() ==> self.owns(w)
        &&& w.phase == Phase::Attempting ==> self.owns(w) && self.now <= w.attempt_started
            + w.config.attempt_timeout && w.attempt_started + w.config.attempt_timeout
            < w.claimed_at + w.config.lock_ttl()
    }

    pub open spec fn inv(self) -> bool {
        &&& forall|i: int|
            0 <= i < self.workers.len() ==> self.worker_inv(#[trigger] self.workers[i])
        &&& forall|i: int| 0 <= i < self.workers.len() ==> self.slot_inv(#[trigger] self.workers[i])
        &&& self.capped()
    }

    /// Whether the worker is attempting delivery to the domain with this
    /// counter.
    pub open spec fn attempting_to(self, worker: int, slot_key: Seq<u8>) -> bool {
        &&& 0 <= worker < self.workers.len()
        &&& self.workers[worker].phase == Phase::Attempting
        &&& self.workers[worker].current().slot_key() == slot_key
    }

    /// Whether the worker is attempting delivery to the recipient.
    pub open spec fn attempting(self, worker: int, message_id: u64, recipient: u32) -> bool {
        &&& 0 <= worker < self.workers.len()
        &&& self.workers[worker].phase == Phase::Attempting
        &&& self.workers[worker].current().message_id == message_id
        &&& self.workers[worker].current().recipient == recipient
    }
}

/// A step keeps a worker well formed, and leaves its identity and settings.
pub proof fn lemma_step_wf(w: WorkerView, event: EventView, now: u64)
    requires
        w.wf(),
    ensures
        w.step(event, now).0.wf(),
        w.step(event, now).0.id == w.id,
        w.step(event, now).0.config == w.config,
{
}

/// What a step may do to a worker that holds a claim: the candidate and the
/// time of the claim stay while the worker goes from the lock's grant to the
/// attempt, and an attempt begins only with enough of the lock's time left.
pub open spec fn keeps_claim(w: WorkerView, v: WorkerView, now: u64) -> bool {
    &&& v.phase == Phase::TakingSlot ==> w.phase == Phase::TakingSlot && v.cursor == w.cursor
        && v.batch == w.batch && v.claimed_at == w.claimed_at
    &&& v.phase == Phase::Marking ==> (w.phase == Phase::TakingSlot || w.phase == Phase::Marking)
        && v.cursor == w.cursor && v.batch == w.batch && v.claimed_at == w.claimed_at
    &&& v.phase == Phase::Resolving ==> (w.phase == Phase::Marking || w.phase == Phase::Resolving)
        && v.cursor == w.cursor && v.batch == w.batch && v.claimed_at == w.claimed_at
    &&& v.phase == Phase::Attempting ==> v.cursor == w.cursor && v.batch == w.batch
        && v.claimed_at == w.claimed_at && ((w.phase == Phase::Attempting && v.attempt_started
        == w.attempt_started) || (w.phase == Phase::Resolving && v.attempt_started == now
        && w.lease_allows_attempt(now)))
    &&& v.phase.on_candidate() && v.claimed_at != w.claimed_at ==> v.claimed_at == now
    &&& v.phase.on_candidate() && !w.phase.on_candidate() ==> v.claimed_at == now
}

proof fn lemma_claim_keeps(w: WorkerView, index: int, now: u64)
    ensures
        ({
            let v = w.claim(index, now).0;
            &&& v.phase == Phase::Locking || v.phase == Phase::Scanning || v.phase == Phase::Idle
            &&& v.phase == Phase::Locking ==> v.claimed_at == now
        }),
{
}

proof fn lemma_settle_keeps(w: WorkerView, outcome: crate::scheduler::OutcomeView, now: u64)
    ensures
        ({
            let v = w.settle(outcome, now).0;
            &&& v.phase == Phase::Persisting
            &&& v.claimed_at == w.claimed_at
        }),
{
}

proof fn lemma_routed_keeps(w: WorkerView, step: crate::resolver::ResolveStepView, now: u64)
    requires
        w.phase == Phase::Resolving,
    ensures
        keeps_claim(w, w.routed(step, now).0, now),
{
    lemma_settle_keeps(w, crate::resolver::spec_unroutable(false), now);
    lemma_settle_keeps(w, crate::resolver::spec_unroutable(true), now);
}

proof fn lemma_wake_keeps(w: WorkerView, now: u64)
    ensures
        keeps_claim(w, w.on_wake().0, now),
{
}

proof fn lemma_due_keeps(w: WorkerView, candidates: Seq<CandidateView>, next_due: Option<u64>, now: u64)
    requires
        w.phase == Phase::Scanning,
    ensures
        keeps_claim(w, w.on_due(candidates, next_due, now).0, now),
{
    lemma_claim_keeps(
        WorkerView {
            batch: candidates,
            timer: next_due,
            rescan: w.rescan || candidates.len() > 0,
            ..w
        },
        0,
        now,
    );
}

proof fn lemma_slot_keeps(w: WorkerView, granted: bool, now: u64)
    requires
        w.phase == Phase::TakingSlot,
    ensures
        keeps_claim(w, w.on_slot(granted).0, now),
{
}

proof fn lemma_marked_keeps(w: WorkerView, persisted: bool, now: u64)
    requires
        w.phase == Phase::Marking,
    ensures
        keeps_claim(w, w.on_marked(persisted).0, now),
{
}

proof fn lemma_attempted_keeps(w: WorkerView, outcome: crate::scheduler::OutcomeView, now: u64)
    requires
        w.phase == Phase::Attempting,
    ensures
        keeps_claim(w, w.settle(outcome, now).0, now),
{
    lemma_settle_keeps(w, outcome, now);
}

proof fn lemma_release_keeps(w: WorkerView, now: u64)
    requires
        w.phase.on_candidate(),
    ensures
        keeps_claim(w, w.give_slot_back().0, now),
        keeps_claim(w, w.give_lock_back().0, now),
        keeps_claim(w, w.claim(w.cursor + 1, now).0, now),
        keeps_claim(w, w, now),
{
    lemma_claim_keeps(w, w.cursor + 1, now);
}

/// Every step other than the lock's grant keeps the claim.
pub proof fn lemma_step_keeps_claim(w: WorkerView, event: EventView, now: u64)
    requires
        w.wf(),
        !(event is Lock),
    ensures
        keeps_claim(w, w.step(event, now).0, now),
{
    if w.phase.on_candidate() {
        lemma_release_keeps(w, now);
    }
    match event {
        EventView::Refresh { message } => {
            lemma_wake_keeps(w, now);
        },
        EventView::Timer => {
            lemma_wake_keeps(w, now);
        },
        EventView::Due { candidates, next_due } => {
            if w.phase == Phase::Scanning {
                lemma_due_keeps(w, candidates, next_due, now);
            }
        },
        EventView::Lock { granted } => {},
        EventView::Slot { granted } => {
            if w.phase == Phase::TakingSlot {
                lemma_slot_keeps(w, granted, now);
            }
        },
        EventView::Marked { persisted } => {
            if w.phase == Phase::Marking {
                lemma_marked_keeps(w, persisted, now);
            }
        },
        EventView::Routed(step) => {
            if w.phase == Phase::Resolving {
                lemma_routed_keeps(w, step, now);
            }
        },
        EventView::Attempted { outcome } => {
            if w.phase == Phase::Attempting {
                lemma_attempted_keeps(w, outcome, now);
            }
        },
        EventView::Persisted { persisted } => {},
        EventView::SlotReleased => {},
        EventView::LockReleased => {},
    }
}

/// The lock store's answers in this model are answers to what the worker
/// asked: a worker that turns to a candidate asks for that candidate's lock,
/// under its own identity, for the time that its settings give a lock; and
/// the lock that it gives back is that candidate's, again under its own
/// identity.
pub proof fn lemma_worker_asks_for_its_lock(w: WorkerView, index: int, now: u64)
    requires
        0 <= index < w.batch.len(),
    ensures
        w.claim(index, now).0.phase == Phase::Locking,
        w.claim(index, now).1 == (ActionView::AcquireLock {
            key: w.claim(index, now).0.current().lock_key(),
            holder: w.id,
            ttl: w.config.lock_ttl(),
        }),
        w.give_lock_back().0.phase == Phase::ReleasingLock,
        w.give_lock_back().1 == (ActionView::ReleaseLock {
            key: w.give_lock_back().0.current().lock_key(),
            holder: w.id,
        }),
{
}

/// A worker that waits for a slot's grant stays there until the grant comes.
proof fn lemma_waits_for_slot(w: WorkerView, event: EventView, now: u64)
    requires
        w.phase == Phase::TakingSlot,
        !(event is Slot),
    ensures
        w.step(event, now).0.phase == Phase::TakingSlot,
{
}

/// A move leaves identities, settings, and the well-formedness of the
/// workers as they are.
proof fn lemma_next_wf(s: System, m: Move)
    requires
        s.wf(),
        s.enabled(m),
    ensures
        s.next(m).wf(),
        s.next(m).workers.len() == s.workers.len(),
        s.next(m).limit == s.limit,
        forall|i: int|
            0 <= i < s.workers.len() ==> (#[trigger] s.next(m).workers[i]).id == s.workers[i].id
                && s.next(m).workers[i].config == s.workers[i].config,
{
    let t = s.next(m);
    match m {
        Move::Tick { to } => {},
        Move::LockAnswer { worker } => {
            let granted = !held(s.locks, s.workers[worker].current().lock_key(), s.now);
            lemma_step_wf(s.workers[worker], EventView::Lock { granted }, s.now);
        },
        Move::ReleaseAnswer { worker } => {
            lemma_step_wf(s.workers[worker], EventView::LockReleased, s.now);
        },
        Move::SlotAnswer { worker } => {
            let w = s.workers[worker];
            let granted = count_of(s.counters, w.current().slot_key(), s.now)
                < w.config.concurrency;
            lemma_step_wf(w, EventView::Slot { granted }, s.now);
        },
        Move::SlotReleaseAnswer { worker } => {
            lemma_step_wf(s.workers[worker], EventView::SlotReleased, s.now);
        },
        Move::Deliver { worker, event } => {
            lemma_step_wf(s.workers[worker], event, s.now);
        },
        Move::Crash { worker } => {},
    }
    assert forall|i: int| 0 <= i < s.workers.len() implies (#[trigger] t.workers[i]).id
        == s.workers[i].id && t.workers[i].config == s.workers[i].config && t.workers[i].wf() by {
        assert(s.workers[i].wf());
    }
    assert forall|i: int, j: int| 0 <= i < j < t.workers.len() implies (#[trigger] t.workers[i]).id
        != (#[trigger] t.workers[j]).id by {
        assert(t.workers[i].id == s.workers[i].id);
        assert(t.workers[j].id == s.workers[j].id);
    }
    assert forall|i: int| 0 <= i < t.workers.len() implies (
    #[trigger] t.workers[i]).config.concurrency == t.limit by {
        assert(s.workers[i].config.concurrency == s.limit);
    }
}

/// A move that leaves locks, counters and the time alone keeps what a
/// worker relies on, if the worker itself keeps its claim.
proof fn lemma_same_stores(s: System, t: System, w: WorkerView, v: WorkerView)
    requires
        t.locks == s.locks,
        t.counters == s.counters,
        t.now == s.now,
        s.worker_inv(w),
        s.slot_inv(w),
        v.id == w.id,
        v.config == w.config,
        keeps_claim(w, v, s.now),
        v.phase == Phase::Marking ==> w.phase == Phase::Marking,
    ensures
        t.worker_inv(v),
        t.slot_inv(v),
{
    if (v.phase == Phase::Marking || v.phase == Phase::Resolving || v.phase == Phase::Attempting)
        && s.has_slot(w) {
        let p = choose|p: int| #[trigger] s.slot_at(w, p);
        assert(t.slot_at(v, p));
    }
}

/// The time may pass: what the workers rely on is kept.
proof fn lemma_inv_tick(s: System, to: u64)
    requires
        s.wf(),
        s.inv(),
        s.enabled(Move::Tick { to }),
    ensures
        s.next(Move::Tick { to }).inv(),
{
    let t = s.next(Move::Tick { to });
    assert forall|i: int| 0 <= i < t.workers.len() implies t.worker_inv(#[trigger] t.workers[i])
        && t.slot_inv(t.workers[i]) by {
        let w = s.workers[i];
        assert(s.worker_inv(w) && s.slot_inv(w));
        if s.has_slot(w) {
            let p = choose|p: int| #[trigger] s.slot_at(w, p);
            assert(t.slot_at(w, p));
        }
    }
    assert forall|key: Seq<u8>| #[trigger] count_of(t.counters, key, t.now) <= t.limit by {
        lemma_count_falls_with_time(leases_of(s.counters, key), s.now, to);
        assert(count_of(s.counters, key, s.now) <= s.limit);
    }
}

/// The lock store may answer a request for a lock.
proof fn lemma_inv_lock_answer(s: System, worker: int)
    requires
        s.wf(),
        s.inv(),
        s.enabled(Move::LockAnswer { worker }),
    ensures
        s.next(Move::LockAnswer { worker }).inv(),
{
    let t = s.next(Move::LockAnswer { worker });
    let w = s.workers[worker];
    let key = w.current().lock_key();
    let granted = !held(s.locks, key, s.now);
    lemma_step_wf(w, EventView::Lock { granted }, s.now);
    assert forall|i: int| 0 <= i < t.workers.len() implies t.worker_inv(#[trigger] t.workers[i])
        && t.slot_inv(t.workers[i]) by {
        let v = s.workers[i];
        assert(s.worker_inv(v) && s.slot_inv(v));
        if i != worker {
            assert(t.workers[i] == v);
            if granted && v.phase.on_candidate() && v.current().lock_key() == key {
                // The lock was free, so no other worker can still reckon it
                // its own.
                if s.owns(v) {
                    assert(s.now >= s.locks[key].acquired + s.locks[key].ttl);
                }
            }
            if s.has_slot(v) {
                let p = choose|p: int| #[trigger] s.slot_at(v, p);
                assert(t.slot_at(v, p));
            }
        }
    }
    assert forall|key: Seq<u8>| #[trigger] count_of(t.counters, key, t.now) <= t.limit by {
        assert(count_of(s.counters, key, s.now) <= s.limit);
    }
}

/// The lock store may take a lock back.
proof fn lemma_inv_release_answer(s: System, worker: int)
    requires
        s.wf(),
        s.inv(),
        s.enabled(Move::ReleaseAnswer { worker }),
    ensures
        s.next(Move::ReleaseAnswer { worker }).inv(),
{
    let t = s.next(Move::ReleaseAnswer { worker });
    let w = s.workers[worker];
    lemma_step_wf(w, EventView::LockReleased, s.now);
    lemma_step_keeps_claim(w, EventView::LockReleased, s.now);
    assert forall|i: int| 0 <= i < t.workers.len() implies t.worker_inv(#[trigger] t.workers[i])
        && t.slot_inv(t.workers[i]) by {
        let v = s.workers[i];
        assert(s.worker_inv(v) && s.slot_inv(v));
        if i != worker {
            assert(t.workers[i] == v);
            if i < worker {
                assert(s.workers[i].id != s.workers[worker].id);
            } else {
                assert(s.workers[worker].id != s.workers[i].id);
            }
            if s.has_slot(v) {
                let p = choose|p: int| #[trigger] s.slot_at(v, p);
                assert(t.slot_at(v, p));
            }
        }
    }
    assert forall|key: Seq<u8>| #[trigger] count_of(t.counters, key, t.now) <= t.limit by {
        assert(count_of(s.counters, key, s.now) <= s.limit);
    }
}

/// The lock store may answer a request for a slot.
proof fn lemma_inv_slot_answer(s: System, worker: int)
    requires
        s.wf(),
        s.inv(),
        s.enabled(Move::SlotAnswer { worker }),
    ensures
        s.next(Move::SlotAnswer { worker }).inv(),
{
    let t = s.next(Move::SlotAnswer { worker });
    let w = s.workers[worker];
    let key = w.current().slot_key();
    let before = leases_of(s.counters, key);
    let live = live_leases(before, s.now);
    let counts = |lease: LockInfo| lease.live(s.now);
    let granted = count_of(s.counters, key, s.now) < w.config.concurrency;
    let lease = LockInfo { holder: w.id, acquired: s.now, ttl: w.config.lock_ttl() };
    lemma_step_wf(w, EventView::Slot { granted }, s.now);
    lemma_kept_members(before, counts);
    assert(s.worker_inv(w));
    assert(s.workers[worker].config.concurrency == s.limit);
    assert forall|i: int| 0 <= i < t.workers.len() implies t.worker_inv(#[trigger] t.workers[i])
        && t.slot_inv(t.workers[i]) by {
        let v = s.workers[i];
        assert(s.worker_inv(v) && s.slot_inv(v));
        if i != worker {
            assert(t.workers[i] == v);
            if s.has_slot(v) && ((v.phase == Phase::Marking || v.phase == Phase::Resolving)
                && s.now < v.claimed_at + v.config.lock_ttl() || v.phase == Phase::Attempting) {
                let p = choose|p: int| #[trigger] s.slot_at(v, p);
                if granted && v.current().slot_key() == key {
                    // The worker's slot still counts, so it is kept.
                    assert(before[p].live(s.now));
                    assert(counts(before[p]));
                    assert(live.contains(before[p]));
                    let q = choose|q: int| 0 <= q < live.len() && live[q] == before[p];
                    assert(live.push(lease)[q] == before[p]);
                    assert(t.slot_at(v, q));
                } else {
                    assert(t.slot_at(v, p));
                }
            }
        } else if granted {
            assert(live.push(lease)[live.len() as int] == lease);
            assert(t.slot_at(t.workers[i], live.len() as int));
        }
    }
    assert forall|k: Seq<u8>| #[trigger] count_of(t.counters, k, t.now) <= t.limit by {
        assert(count_of(s.counters, k, s.now) <= s.limit);
        if granted && k == key {
            lemma_kept_twice(before, counts);
            lemma_kept_push(live, lease, counts);
        }
    }
}

/// The lock store may take a slot back.
proof fn lemma_inv_slot_release_answer(s: System, worker: int)
    requires
        s.wf(),
        s.inv(),
        s.enabled(Move::SlotReleaseAnswer { worker }),
    ensures
        s.next(Move::SlotReleaseAnswer { worker }).inv(),
{
    let t = s.next(Move::SlotReleaseAnswer { worker });
    let w = s.workers[worker];
    let key = w.current().slot_key();
    lemma_step_wf(w, EventView::SlotReleased, s.now);
    assert forall|i: int| 0 <= i < t.workers.len() implies t.worker_inv(#[trigger] t.workers[i])
        && t.slot_inv(t.workers[i]) by {
        let v = s.workers[i];
        assert(s.worker_inv(v) && s.slot_inv(v));
        if i != worker {
            assert(t.workers[i] == v);
            if i < worker {
                assert(s.workers[i].id != s.workers[worker].id);
            } else {
                assert(s.workers[worker].id != s.workers[i].id);
            }
            if s.has_slot(v) {
                let p = choose|p: int| #[trigger] s.slot_at(v, p);
                if v.current().slot_key() == key && s.counters.contains_key(key) {
                    let before = s.counters[key];
                    let after = without_lease(before, w.id);
                    lemma_count_without_lease(before, w.id, s.now);
                    assert(before[p].holder != w.id);
                    assert(after.contains(before[p]));
                    let q = choose|q: int| 0 <= q < after.len() && after[q] == before[p];
                    assert(t.slot_at(v, q));
                } else {
                    assert(t.slot_at(v, p));
                }
            }
        }
    }
    assert forall|k: Seq<u8>| #[trigger] count_of(t.counters, k, t.now) <= t.limit by {
        assert(count_of(s.counters, k, s.now) <= s.limit);
        if k == key && s.counters.contains_key(key) {
            lemma_count_without_lease(s.counters[key], w.id, s.now);
        }
    }
}

/// Any other event may reach a worker.
proof fn lemma_inv_deliver(s: System, worker: int, event: EventView)
    requires
        s.wf(),
        s.inv(),
        s.enabled(Move::Deliver { worker, event }),
    ensures
        s.next(Move::Deliver { worker, event }).inv(),
{
    let t = s.next(Move::Deliver { worker, event });
    let w = s.workers[worker];
    lemma_step_wf(w, event, s.now);
    lemma_step_keeps_claim(w, event, s.now);
    if w.phase == Phase::TakingSlot {
        lemma_waits_for_slot(w, event, s.now);
    }
    assert forall|i: int| 0 <= i < t.workers.len() implies t.worker_inv(#[trigger] t.workers[i])
        && t.slot_inv(t.workers[i]) by {
        let v = s.workers[i];
        assert(s.worker_inv(v) && s.slot_inv(v));
        if i != worker {
            assert(t.workers[i] == v);
            if s.has_slot(v) {
                let p = choose|p: int| #[trigger] s.slot_at(v, p);
                assert(t.slot_at(v, p));
            }
        } else {
            lemma_same_stores(s, t, w, t.workers[i]);
        }
    }
    assert forall|key: Seq<u8>| #[trigger] count_of(t.counters, key, t.now) <= t.limit by {
        assert(count_of(s.counters, key, s.now) <= s.limit);
    }
}

/// A worker may die.
proof fn lemma_inv_crash(s: System, worker: int)
    requires
        s.wf(),
        s.inv(),
        s.enabled(Move::Crash { worker }),
    ensures
        s.next(Move::Crash { worker }).inv(),
{
    let t = s.next(Move::Crash { worker });
    assert forall|i: int| 0 <= i < t.workers.len() implies t.worker_inv(#[trigger] t.workers[i])
        && t.slot_inv(t.workers[i]) by {
        let v = s.workers[i];
        assert(s.worker_inv(v) && s.slot_inv(v));
        if i != worker {
            assert(t.workers[i] == v);
            if s.has_slot(v) {
                let p = choose|p: int| #[trigger] s.slot_at(v, p);
                assert(t.slot_at(v, p));
            }
        }
    }
    assert forall|key: Seq<u8>| #[trigger] count_of(t.counters, key, t.now) <= t.limit by {
        assert(count_of(s.counters, key, s.now) <= s.limit);
    }
}

/// Every move keeps what the workers rely on.
pub proof fn lemma_inv_next(s: System, m: Move)
    requires
        s.wf(),
        s.inv(),
        s.enabled(m),
    ensures
        s.next(m).wf(),
        s.next(m).inv(),
{
    lemma_next_wf(s, m);
    match m {
        Move::Tick { to } => lemma_inv_tick(s, to),
        Move::LockAnswer { worker } => lemma_inv_lock_answer(s, worker),
        Move::ReleaseAnswer { worker } => lemma_inv_release_answer(s, worker),
        Move::SlotAnswer { worker } => lemma_inv_slot_answer(s, worker),
        Move::SlotReleaseAnswer { worker } => lemma_inv_slot_release_answer(s, worker),
        Move::Deliver { worker, event } => lemma_inv_deliver(s, worker, event),
        Move::Crash { worker } => lemma_inv_crash(s, worker),
    }
}

/// Every run of moves from idle workers keeps what the workers rely on.
pub proof fn lemma_inv_after(s: System, moves: Seq<Move>)
    requires
        s.wf(),
        s.initial(),
    ensures
        s.after(moves).wf(),
        s.after(moves).inv(),
        s.after(moves).limit == s.limit,
    decreases moves.len(),
{
    if moves.len() == 0 {
        assert forall|i: int| 0 <= i < s.workers.len() implies s.worker_inv(
            #[trigger] s.workers[i],
        ) && s.slot_inv(s.workers[i]) by {
            assert(s.workers[i].phase == Phase::Idle);
        }
    } else {
        lemma_inv_after(s, moves.drop_last());
        let before = s.after(moves.drop_last());
        if before.enabled(moves.last()) {
            lemma_inv_next(before, moves.last());
            lemma_next_wf(before, moves.last());
        }
    }
}

/// At most one attempt per recipient at any time: however many workers
/// share the lock store and whatever moves they make, crashes included, no
/// two of them are attempting delivery to the same recipient of the same
/// message at once.
pub proof fn theorem_one_attempt_per_recipient(
    s: System,
    moves: Seq<Move>,
    first: int,
    second: int,
    message_id: u64,
    recipient: u32,
)
    requires
        s.wf(),
        s.initial(),
        s.after(moves).attempting(first, message_id, recipient),
        s.after(moves).attempting(second, message_id, recipient),
    ensures
        first == second,
{
    lemma_inv_after(s, moves);
    let t = s.after(moves);
    if first != second {
        assert(t.worker_inv(t.workers[first]));
        assert(t.worker_inv(t.workers[second]));
        if first < second {
            assert(t.workers[first].id != t.workers[second].id);
        } else {
            assert(t.workers[second].id != t.workers[first].id);
        }
    }
}

/// Deliveries to one domain are bounded: however many workers share the
/// lock store and whatever moves they make, crashes included, the workers
/// that are attempting delivery to one domain at once are never more than
/// the limit.
pub proof fn theorem_domain_concurrency_is_bounded(s: System, moves: Seq<Move>, slot_key: Seq<u8>)
    requires
        s.wf(),
        s.initial(),
    ensures
        ({
            let t = s.after(moves);
            let busy = Set::new(|i: int| t.attempting_to(i, slot_key));
            busy.finite() && busy.len() <= s.limit
        }),
{
    lemma_inv_after(s, moves);
    let t = s.after(moves);
    let busy = Set::new(|i: int| t.attempting_to(i, slot_key));
    let leases = leases_of(t.counters, slot_key);
    let places = live_places(leases, t.now);
    let place = |i: int| choose|p: int| #[trigger] t.slot_at(t.workers[i], p);
    vstd::set_lib::lemma_int_range(0, t.workers.len() as int);
    assert(busy.subset_of(vstd::set_lib::set_int_range(0, t.workers.len() as int)));
    vstd::set_lib::lemma_len_subset(busy, vstd::set_lib::set_int_range(0, t.workers.len() as int));
    lemma_count_is_live_places(leases, t.now);
    // Every busy worker has a slot that counts, and no two share one.
    assert forall|i: int| busy.contains(i) implies t.slot_at(t.workers[i], #[trigger] place(i))
        && places.contains(place(i)) by {
        let w = t.workers[i];
        assert(t.worker_inv(w) && t.slot_inv(w));
        assert(t.has_slot(w));
    }
    assert(vstd::relations::injective_on(place, busy)) by {
        assert forall|i: int, j: int|
            busy.contains(i) && busy.contains(j) && #[trigger] place(i) == #[trigger] place(
                j,
            ) implies i == j by {
            assert(t.slot_at(t.workers[i], place(i)));
            assert(t.slot_at(t.workers[j], place(j)));
            if i < j {
                assert(t.workers[i].id != t.workers[j].id);
            } else if j < i {
                assert(t.workers[j].id != t.workers[i].id);
            }
        }
    }
    let image = busy.map(place);
    vstd::set_lib::lemma_map_size(busy, image, place);
    assert(image.subset_of(places)) by {
        assert forall|p: int| image.contains(p) implies places.contains(p) by {
            let i = choose|i: int| busy.contains(i) && p == place(i);
            assert(places.contains(place(i)));
        }
    }
    vstd::set_lib::lemma_len_subset(image, places);
    assert(count_of(t.counters, slot_key, t.now) <= t.limit);
}

/// While a worker attempts delivery, the lock on its recipient is live and
/// its own.
pub proof fn lemma_attempt_under_lock(s: System, moves: Seq<Move>, worker: int)
    requires
        s.wf(),
        s.initial(),
        0 <= worker < s.after(moves).workers.len(),
        s.after(moves).workers[worker].phase == Phase::Attempting,
    ensures
        held_by(
            s.after(moves).locks,
            s.after(moves).workers[worker].current().lock_key(),
            s.after(moves).workers[worker].id,
            s.after(moves).now,
        ),
{
    lemma_inv_after(s, moves);
    let t = s.after(moves);
    assert(t.worker_inv(t.workers[worker]));
}

/// A claim does not outlive a crash: once the dead worker's lock has run
/// out, the next worker that asks for the recipient gets it.
pub proof fn lemma_crashed_claim_is_taken_over(s: System, worker: int)
    requires
        s.wf(),
        0 <= worker < s.workers.len(),
        s.workers[worker].phase == Phase::Locking,
        s.workers[worker].config.lock_ttl() > 0,
        ({
            let key = s.workers[worker].current().lock_key();
            s.locks.contains_key(key) ==> s.locks[key].acquired + s.locks[key].ttl <= s.now
        }),
    ensures
        s.enabled(Move::LockAnswer { worker }),
        s.next(Move::LockAnswer { worker }).workers[worker].phase == Phase::TakingSlot,
        held_by(
            s.next(Move::LockAnswer { worker }).locks,
            s.workers[worker].current().lock_key(),
            s.workers[worker].id,
            s.now,
        ),
{
}

} // verus!
