//! The queue manager: what a worker does next, given where it stands and
//! what has just happened. The caller performs each action against the
//! stores, the resolver and the network, and hands back the event.

use vstd::prelude::*;
use crate::lock::{domain_key, recipient_key, spec_domain_key, spec_recipient_key};
use crate::resolver::{
    name_key, spec_unroutable, target_views, unroutable_outcome, ResolveStep, ResolveStepView,
    Target, TargetView,
};
use crate::scheduler::{after, Decision, DecisionView, Outcome, OutcomeView, RetryPolicy};

verus! {

/// The settings of a queue worker. Times are in seconds.
#[derive(Clone, Copy, Debug, PartialEq, Eq, Structural)]
pub struct QueueConfig {
    /// How many deliveries to one domain may be in flight at once.
    pub concurrency: u64,
    pub policy: RetryPolicy,
    /// How long one attempt may take.
    pub attempt_timeout: u64,
    /// How much longer than an attempt a claim's lock lasts.
    pub lock_margin: u64,
}

impl QueueConfig {
    pub open spec fn wf(&self) -> bool {
        &&& self.concurrency >= 1
        &&& self.policy.wf()
        &&& self.lock_margin >= 1
        &&& self.attempt_timeout + self.lock_margin <= u64::MAX
    }

    /// How long a claim's lock lasts: an attempt's time and the margin.
    pub open spec fn lock_ttl(&self) -> u64 {
        (self.attempt_timeout + self.lock_margin) as u64
    }

    /// Whether the settings are well formed: at least one delivery per
    /// domain at a time, a well-formed retry policy, and a margin of at
    /// least a second on top of an attempt's time.
    pub fn is_valid(&self) -> (r: bool)
        ensures
            r == self.wf(),
    {
        self.concurrency >= 1 && self.policy.is_valid() && self.lock_margin >= 1
            && self.attempt_timeout <= u64::MAX - self.lock_margin
    }
}

/// A recipient that is due, as the queue state reports it.
#[derive(Debug, PartialEq, Eq)]
pub struct Candidate {
    pub message_id: u64,
    pub recipient: u32,
    pub domain: String,
    pub due: u64,
    pub retry_count: u32,
    pub created: u64,
}

pub struct CandidateView {
    pub message_id: u64,
    pub recipient: u32,
    pub domain: Seq<char>,
    pub due: u64,
    pub retry_count: u32,
    pub created: u64,
}

impl View for Candidate {
    type V = CandidateView;

    open spec fn view(&self) -> CandidateView {
        CandidateView {
            message_id: self.message_id,
            recipient: self.recipient,
            domain: self.domain@,
            due: self.due,
            retry_count: self.retry_count,
            created: self.created,
        }
    }
}

impl CandidateView {
    /// The key of the lock that a claim on the recipient takes.
    pub open spec fn lock_key(self) -> Seq<u8> {
        spec_recipient_key(self.message_id, self.recipient)
    }

    /// The key of the counter of deliveries in flight to the recipient's domain.
    pub open spec fn slot_key(self) -> Seq<u8> {
        spec_domain_key(name_key(self.domain))
    }
}

/// The candidates of a list as the contracts see them.
pub open spec fn candidate_views(candidates: Seq<Candidate>) -> Seq<CandidateView> {
    Seq::new(candidates.len(), |i: int| candidates[i]@)
}

/// Where a worker stands. From `Locking` to `ReleasingLock` it works on one
/// candidate of its batch.
#[derive(Clone, Copy, Debug, PartialEq, Eq, Structural)]
pub enum Phase {
    Idle,
    Scanning,
    Locking,
    TakingSlot,
    Marking,
    Resolving,
    Attempting,
    Persisting,
    ReleasingSlot,
    ReleasingLock,
}

impl Phase {
    /// Whether the worker works on a candidate in this phase.
    pub open spec fn on_candidate(self) -> bool {
        self != Phase::Idle && self != Phase::Scanning
    }
}

/// What has just happened.
#[derive(Debug, PartialEq, Eq)]
pub enum Event {
    /// A refresh signal, for all of the queue or with one message in mind.
    /// The signal only wakes the worker: what is due it learns from the
    /// queue state.
    Refresh { message: Option<u64> },
    /// The time that the worker waited for has come.
    Timer,
    /// The recipients that are due, in the order to try them, and the
    /// earliest time at which another one will be.
    Due { candidates: Vec<Candidate>, next_due: Option<u64> },
    /// The lock store's answer to `AcquireLock`.
    Lock { granted: bool },
    /// The lock store's answer to `IncrementSlot`.
    Slot { granted: bool },
    /// Whether the recipient was marked in flight.
    Marked { persisted: bool },
    /// Where the resolution of the domain ended.
    Routed(ResolveStep),
    /// What the attempt reported.
    Attempted { outcome: Outcome },
    /// Whether the decision was persisted.
    Persisted { persisted: bool },
    /// The counter was decremented.
    SlotReleased,
    /// The lock was given back.
    LockReleased,
}

pub enum EventView {
    Refresh { message: Option<u64> },
    Timer,
    Due { candidates: Seq<CandidateView>, next_due: Option<u64> },
    Lock { granted: bool },
    Slot { granted: bool },
    Marked { persisted: bool },
    Routed(ResolveStepView),
    Attempted { outcome: OutcomeView },
    Persisted { persisted: bool },
    SlotReleased,
    LockReleased,
}

impl View for Event {
    type V = EventView;

    open spec fn view(&self) -> EventView {
        match self {
            Event::Refresh { message } => EventView::Refresh { message: *message },
            Event::Timer => EventView::Timer,
            Event::Due { candidates, next_due } => EventView::Due {
                candidates: candidate_views(candidates@),
                next_due: *next_due,
            },
            Event::Lock { granted } => EventView::Lock { granted: *granted },
            Event::Slot { granted } => EventView::Slot { granted: *granted },
            Event::Marked { persisted } => EventView::Marked { persisted: *persisted },
            Event::Routed(step) => EventView::Routed(step@),
            Event::Attempted { outcome } => EventView::Attempted { outcome: outcome@ },
            Event::Persisted { persisted } => EventView::Persisted { persisted: *persisted },
            Event::SlotReleased => EventView::SlotReleased,
            Event::LockReleased => EventView::LockReleased,
        }
    }
}

/// What the caller has to do next.
#[derive(Debug, PartialEq, Eq)]
pub enum Action {
    /// Nothing: the event does not fit where the worker stands.
    Ignore,
    /// Idle until the next refresh signal, or until the time given.
    Wait { until: Option<u64> },
    /// Ask the queue state for the recipients that are due.
    Scan,
    /// Ask the lock store for the lock.
    AcquireLock { key: Vec<u8>, holder: u64, ttl: u64 },
    /// Ask the lock store for a slot of the domain.
    IncrementSlot { key: Vec<u8>, holder: u64, max: u64, ttl: u64 },
    /// Mark the recipient in flight in the queue state.
    MarkInFlight { message_id: u64, recipient: u32 },
    /// Resolve the domain.
    Resolve { domain: String },
    /// Attempt delivery to the target; the attempt is over by the deadline.
    Attempt { message_id: u64, recipient: u32, target: Target, deadline: u64 },
    /// Apply the decision to the recipient in the queue state.
    Persist { message_id: u64, recipient: u32, decision: Decision },
    /// Give the domain's slot back.
    DecrementSlot { key: Vec<u8>, holder: u64 },
    /// Give the lock back.
    ReleaseLock { key: Vec<u8>, holder: u64 },
}

pub enum ActionView {
    Ignore,
    Wait { until: Option<u64> },
    Scan,
    AcquireLock { key: Seq<u8>, holder: u64, ttl: u64 },
    IncrementSlot { key: Seq<u8>, holder: u64, max: u64, ttl: u64 },
    MarkInFlight { message_id: u64, recipient: u32 },
    Resolve { domain: Seq<char> },
    Attempt { message_id: u64, recipient: u32, target: TargetView, deadline: u64 },
    Persist { message_id: u64, recipient: u32, decision: DecisionView },
    DecrementSlot { key: Seq<u8>, holder: u64 },
    ReleaseLock { key: Seq<u8>, holder: u64 },
}

impl View for Action {
    type V = ActionView;

    open spec fn view(&self) -> ActionView {
        match self {
            Action::Ignore => ActionView::Ignore,
            Action::Wait { until } => ActionView::Wait { until: *until },
            Action::Scan => ActionView::Scan,
            Action::AcquireLock { key, holder, ttl } => ActionView::AcquireLock {
                key: key@,
                holder: *holder,
                ttl: *ttl,
            },
            Action::IncrementSlot { key, holder, max, ttl } => ActionView::IncrementSlot {
                key: key@,
                holder: *holder,
                max: *max,
                ttl: *ttl,
            },
            Action::MarkInFlight { message_id, recipient } => ActionView::MarkInFlight {
                message_id: *message_id,
                recipient: *recipient,
            },
            Action::Resolve { domain } => ActionView::Resolve { domain: domain@ },
            Action::Attempt { message_id, recipient, target, deadline } => ActionView::Attempt {
                message_id: *message_id,
                recipient: *recipient,
                target: target@,
                deadline: *deadline,
            },
            Action::Persist { message_id, recipient, decision } => ActionView::Persist {
                message_id: *message_id,
                recipient: *recipient,
                decision: decision@,
            },
            Action::DecrementSlot { key, holder } => ActionView::DecrementSlot {
                key: key@,
                holder: *holder,
            },
            Action::ReleaseLock { key, holder } => ActionView::ReleaseLock {
                key: key@,
                holder: *holder,
            },
        }
    }
}

/// One queue worker.
#[derive(Debug, PartialEq, Eq)]
pub struct Worker {
    /// The identity under which the worker holds locks.
    pub id: u64,
    pub config: QueueConfig,
    pub phase: Phase,
    /// The candidates of the last scan.
    pub batch: Vec<Candidate>,
    /// The place in the batch of the candidate that the worker works on.
    pub cursor: usize,
    /// When the worker asked for the lock on that candidate.
    pub claimed_at: u64,
    /// When the attempt on that candidate began.
    pub attempt_started: u64,
    /// The earliest time at which a recipient is known to become due.
    pub timer: Option<u64>,
    /// Whether to scan again before idling.
    pub rescan: bool,
}

pub struct WorkerView {
    pub id: u64,
    pub config: QueueConfig,
    pub phase: Phase,
    pub batch: Seq<CandidateView>,
    pub cursor: int,
    pub claimed_at: u64,
    pub attempt_started: u64,
    pub timer: Option<u64>,
    pub rescan: bool,
}

impl View for Worker {
    type V = WorkerView;

    open spec fn view(&self) -> WorkerView {
        WorkerView {
            id: self.id,
            config: self.config,
            phase: self.phase,
            batch: candidate_views(self.batch@),
            cursor: self.cursor as int,
            claimed_at: self.claimed_at,
            attempt_started: self.attempt_started,
            timer: self.timer,
            rescan: self.rescan,
        }
    }
}

/// The earlier of a timer and a time.
pub open spec fn earlier(timer: Option<u64>, at: u64) -> Option<u64> {
    match timer {
        Some(t) => if t <= at {
            Some(t)
        } else {
            Some(at)
        },
        None => Some(at),
    }
}

impl WorkerView {
    /// A worker that works on a candidate has one.
    pub open spec fn wf(self) -> bool {
        &&& self.config.wf()
        &&& self.phase.on_candidate() ==> 0 <= self.cursor < self.batch.len()
    }

    /// The candidate that the worker works on.
    pub open spec fn current(self) -> CandidateView {
        self.batch[self.cursor]
    }

    /// Whether the claim's lock outlasts an attempt that begins at `now`.
    pub open spec fn lease_allows_attempt(self, now: u64) -> bool {
        now + self.config.attempt_timeout < self.claimed_at + self.config.lock_ttl()
    }

    /// Turns to the candidate at `index`: asks for its lock, or, past the end
    /// of the batch, scans again if there was work, and idles otherwise.
    pub open spec fn claim(self, index: int, now: u64) -> (WorkerView, ActionView) {
        if 0 <= index < self.batch.len() {
            (
                WorkerView { phase: Phase::Locking, cursor: index, claimed_at: now, ..self },
                ActionView::AcquireLock {
                    key: self.batch[index].lock_key(),
                    holder: self.id,
                    ttl: self.config.lock_ttl(),
                },
            )
        } else if self.rescan {
            (
                WorkerView {
                    phase: Phase::Scanning,
                    batch: Seq::empty(),
                    cursor: 0,
                    rescan: false,
                    ..self
                },
                ActionView::Scan,
            )
        } else {
            (
                WorkerView { phase: Phase::Idle, batch: Seq::empty(), cursor: 0, ..self },
                ActionView::Wait { until: self.timer },
            )
        }
    }

    /// Takes an outcome to the scheduler and has its decision persisted. A
    /// retry that is due before the timer moves the timer forward.
    pub open spec fn settle(self, outcome: OutcomeView, now: u64) -> (WorkerView, ActionView) {
        let candidate = self.current();
        let decision = self.config.policy.spec_decide(
            outcome,
            candidate.retry_count,
            now,
            candidate.created,
        );
        (
            WorkerView {
                phase: Phase::Persisting,
                timer: match decision {
                    DecisionView::RetryAt { due, retry_count } => earlier(self.timer, due),
                    _ => self.timer,
                },
                ..self
            },
            ActionView::Persist {
                message_id: candidate.message_id,
                recipient: candidate.recipient,
                decision,
            },
        )
    }

    /// What the worker does after resolution: with targets it attempts the
    /// first one in delivery order, if the lock outlasts the attempt, and
    /// lets go of the claim if not. Without targets the outcome is a failure,
    /// permanent where the domain has no route, temporary otherwise; a
    /// resolution that was left unfinished counts as a temporary failure.
    pub open spec fn routed(self, step: ResolveStepView, now: u64) -> (WorkerView, ActionView) {
        match step {
            ResolveStepView::Targets(targets) => if targets.len() == 0 {
                self.settle(spec_unroutable(false), now)
            } else if self.lease_allows_attempt(now) {
                (
                    WorkerView { phase: Phase::Attempting, attempt_started: now, ..self },
                    ActionView::Attempt {
                        message_id: self.current().message_id,
                        recipient: self.current().recipient,
                        target: targets[0],
                        deadline: after(now, self.config.attempt_timeout as nat),
                    },
                )
            } else {
                self.give_slot_back()
            },
            ResolveStepView::Unroutable { permanent } => self.settle(
                spec_unroutable(permanent),
                now,
            ),
            _ => self.settle(spec_unroutable(false), now),
        }
    }

    /// A wake-up starts a scan, or is remembered while the worker is busy.
    pub open spec fn on_wake(self) -> (WorkerView, ActionView) {
        if self.phase == Phase::Idle {
            (WorkerView { phase: Phase::Scanning, ..self }, ActionView::Scan)
        } else {
            (WorkerView { rescan: true, ..self }, ActionView::Ignore)
        }
    }

    /// The due recipients become the batch, and the first one is claimed.
    pub open spec fn on_due(self, candidates: Seq<CandidateView>, next_due: Option<u64>, now: u64) -> (
        WorkerView,
        ActionView,
    ) {
        (WorkerView {
            batch: candidates,
            timer: next_due,
            rescan: self.rescan || candidates.len() > 0,
            ..self
        }).claim(0, now)
    }

    /// With the lock the worker asks for a slot of the domain; without it
    /// another worker has the candidate, and the next one is claimed.
    pub open spec fn on_lock(self, granted: bool, now: u64) -> (WorkerView, ActionView) {
        if granted {
            (
                WorkerView { phase: Phase::TakingSlot, ..self },
                ActionView::IncrementSlot {
                    key: self.current().slot_key(),
                    holder: self.id,
                    max: self.config.concurrency,
                    ttl: self.config.lock_ttl(),
                },
            )
        } else {
            self.claim(self.cursor + 1, now)
        }
    }

    /// With a slot the recipient is marked in flight; a domain at capacity
    /// has the lock given back at once.
    pub open spec fn on_slot(self, granted: bool) -> (WorkerView, ActionView) {
        if granted {
            (
                WorkerView { phase: Phase::Marking, ..self },
                ActionView::MarkInFlight {
                    message_id: self.current().message_id,
                    recipient: self.current().recipient,
                },
            )
        } else {
            self.give_lock_back()
        }
    }

    /// Once marked the recipient's domain is resolved; if the mark could not
    /// be persisted, the attempt is given up.
    pub open spec fn on_marked(self, persisted: bool) -> (WorkerView, ActionView) {
        if persisted {
            (
                WorkerView { phase: Phase::Resolving, ..self },
                ActionView::Resolve { domain: self.current().domain },
            )
        } else {
            self.give_slot_back()
        }
    }

    /// Gives the domain's slot back.
    pub open spec fn give_slot_back(self) -> (WorkerView, ActionView) {
        (
            WorkerView { phase: Phase::ReleasingSlot, ..self },
            ActionView::DecrementSlot { key: self.current().slot_key(), holder: self.id },
        )
    }

    /// Gives the candidate's lock back.
    pub open spec fn give_lock_back(self) -> (WorkerView, ActionView) {
        (
            WorkerView { phase: Phase::ReleasingLock, ..self },
            ActionView::ReleaseLock { key: self.current().lock_key(), holder: self.id },
        )
    }

    /// The worker after an event at `now`, and what the caller does next.
    ///
    /// A wake-up starts a scan, or is remembered while the worker is busy.
    /// Each candidate of a scan is claimed in turn: its lock, then a slot of
    /// its domain, then the mark in the queue state; a candidate whose lock
    /// is held is passed over, and one whose domain is at capacity is let go
    /// of at once. A claimed candidate is resolved and attempted once, the
    /// outcome goes to the scheduler, and the slot and the lock are given
    /// back whatever happened. An attempt begins only while the lock outlasts
    /// it. After a batch with candidates the worker scans again, and idles
    /// only after a scan without any. An event that does not fit the phase
    /// changes nothing.
    pub open spec fn step(self, event: EventView, now: u64) -> (WorkerView, ActionView) {
        match event {
            EventView::Refresh { message } => self.on_wake(),
            EventView::Timer => self.on_wake(),
            EventView::Due { candidates, next_due } => if self.phase == Phase::Scanning {
                self.on_due(candidates, next_due, now)
            } else {
                (self, ActionView::Ignore)
            },
            EventView::Lock { granted } => if self.phase == Phase::Locking {
                self.on_lock(granted, now)
            } else {
                (self, ActionView::Ignore)
            },
            EventView::Slot { granted } => if self.phase == Phase::TakingSlot {
                self.on_slot(granted)
            } else {
                (self, ActionView::Ignore)
            },
            EventView::Marked { persisted } => if self.phase == Phase::Marking {
                self.on_marked(persisted)
            } else {
                (self, ActionView::Ignore)
            },
            EventView::Routed(step) => if self.phase == Phase::Resolving {
                self.routed(step, now)
            } else {
                (self, ActionView::Ignore)
            },
            EventView::Attempted { outcome } => if self.phase == Phase::Attempting {
                self.settle(outcome, now)
            } else {
                (self, ActionView::Ignore)
            },
            EventView::Persisted { persisted } => if self.phase == Phase::Persisting {
                self.give_slot_back()
            } else {
                (self, ActionView::Ignore)
            },
            EventView::SlotReleased => if self.phase == Phase::ReleasingSlot {
                self.give_lock_back()
            } else {
                (self, ActionView::Ignore)
            },
            EventView::LockReleased => if self.phase == Phase::ReleasingLock {
                self.claim(self.cursor + 1, now)
            } else {
                (self, ActionView::Ignore)
            },
        }
    }
}

impl Worker {
    /// An idle worker.
    pub fn new(id: u64, config: QueueConfig) -> (r: Worker)
        requires
            config.wf(),
        ensures
            r@ == (WorkerView {
                id,
                config,
                phase: Phase::Idle,
                batch: Seq::empty(),
                cursor: 0,
                claimed_at: 0,
                attempt_started: 0,
                timer: None,
                rescan: false,
            }),
            r@.wf(),
    {
        let r = Worker {
            id,
            config,
            phase: Phase::Idle,
            batch: Vec::new(),
            cursor: 0,
            claimed_at: 0,
            attempt_started: 0,
            timer: None,
            rescan: false,
        };
        assert(r@.batch =~= Seq::<CandidateView>::empty());
        r
    }

    fn lock_ttl(&self) -> (r: u64)
        requires
            self@.wf(),
        ensures
            r == self.config.lock_ttl(),
    {
        self.config.attempt_timeout + self.config.lock_margin
    }

    fn slot_key(&self) -> (r: Vec<u8>)
        requires
            0 <= self.cursor < self.batch@.len(),
        ensures
            r@ == self@.current().slot_key(),
    {
        domain_key(self.batch[self.cursor].domain.as_str().as_bytes())
    }

    fn lock_key(&self) -> (r: Vec<u8>)
        requires
            0 <= self.cursor < self.batch@.len(),
        ensures
            r@ == self@.current().lock_key(),
    {
        recipient_key(self.batch[self.cursor].message_id, self.batch[self.cursor].recipient)
    }

    fn claim(&mut self, index: usize, now: u64) -> (r: Action)
        requires
            old(self).config.wf(),
        ensures
            (final(self)@, r@) == old(self)@.claim(index as int, now),
            final(self)@.wf(),
    {
        if index < self.batch.len() {
            self.phase = Phase::Locking;
            self.cursor = index;
            self.claimed_at = now;
            Action::AcquireLock { key: self.lock_key(), holder: self.id, ttl: self.lock_ttl() }
        } else {
            self.batch = Vec::new();
            self.cursor = 0;
            assert(self@.batch =~= Seq::<CandidateView>::empty());
            if self.rescan {
                self.phase = Phase::Scanning;
                self.rescan = false;
                Action::Scan
            } else {
                self.phase = Phase::Idle;
                Action::Wait { until: self.timer }
            }
        }
    }

    fn settle(&mut self, outcome: Outcome, now: u64) -> (r: Action)
        requires
            old(self).config.wf(),
            0 <= old(self).cursor < old(self).batch@.len(),
        ensures
            (final(self)@, r@) == old(self)@.settle(outcome@, now),
            final(self).cursor == old(self).cursor,
            final(self).batch == old(self).batch,
            final(self).config == old(self).config,
    {
        let message_id: u64 = self.batch[self.cursor].message_id;
        let recipient: u32 = self.batch[self.cursor].recipient;
        let retry_count: u32 = self.batch[self.cursor].retry_count;
        let created: u64 = self.batch[self.cursor].created;
        let decision = self.config.policy.decide(outcome, retry_count, now, created);
        match &decision {
            Decision::RetryAt { due, retry_count } => {
                self.timer = match self.timer {
                    Some(t) => if t <= *due {
                        Some(t)
                    } else {
                        Some(*due)
                    },
                    None => Some(*due),
                };
            },
            _ => {},
        }
        self.phase = Phase::Persisting;
        Action::Persist { message_id, recipient, decision }
    }

    fn routed(&mut self, step: ResolveStep, now: u64) -> (r: Action)
        requires
            old(self).config.wf(),
            0 <= old(self).cursor < old(self).batch@.len(),
        ensures
            (final(self)@, r@) == old(self)@.routed(step@, now),
            final(self).cursor == old(self).cursor,
            final(self).batch == old(self).batch,
            final(self).config == old(self).config,
    {
        match step {
            ResolveStep::Targets(targets) => {
                if targets.len() == 0 {
                    self.settle(unroutable_outcome(false), now)
                } else if now < self.claimed_at || now - self.claimed_at
                    < self.config.lock_margin {
                    let mut targets = targets;
                    let target = targets.remove(0);
                    self.phase = Phase::Attempting;
                    self.attempt_started = now;
                    Action::Attempt {
                        message_id: self.batch[self.cursor].message_id,
                        recipient: self.batch[self.cursor].recipient,
                        target,
                        deadline: crate::executor::attempt_deadline(
                            now,
                            self.config.attempt_timeout,
                        ),
                    }
                } else {
                    self.give_slot_back()
                }
            },
            ResolveStep::Unroutable { permanent } => self.settle(
                unroutable_outcome(permanent),
                now,
            ),
            _ => self.settle(unroutable_outcome(false), now),
        }
    }

    fn give_slot_back(&mut self) -> (r: Action)
        requires
            0 <= old(self).cursor < old(self).batch@.len(),
        ensures
            (final(self)@, r@) == old(self)@.give_slot_back(),
            final(self).cursor == old(self).cursor,
            final(self).batch == old(self).batch,
            final(self).config == old(self).config,
    {
        self.phase = Phase::ReleasingSlot;
        Action::DecrementSlot { key: self.slot_key(), holder: self.id }
    }

    fn give_lock_back(&mut self) -> (r: Action)
        requires
            0 <= old(self).cursor < old(self).batch@.len(),
        ensures
            (final(self)@, r@) == old(self)@.give_lock_back(),
            final(self).cursor == old(self).cursor,
            final(self).batch == old(self).batch,
            final(self).config == old(self).config,
    {
        self.phase = Phase::ReleasingLock;
        Action::ReleaseLock { key: self.lock_key(), holder: self.id }
    }

    fn on_wake(&mut self) -> (r: Action)
        requires
            old(self)@.wf(),
        ensures
            (final(self)@, r@) == old(self)@.on_wake(),
            final(self)@.wf(),
    {
        if self.phase == Phase::Idle {
            self.phase = Phase::Scanning;
            Action::Scan
        } else {
            self.rescan = true;
            Action::Ignore
        }
    }

    fn on_due(&mut self, candidates: Vec<Candidate>, next_due: Option<u64>, now: u64) -> (r: Action)
        requires
            old(self)@.wf(),
        ensures
            (final(self)@, r@) == old(self)@.on_due(candidate_views(candidates@), next_due, now),
            final(self)@.wf(),
    {
        self.rescan = self.rescan || candidates.len() > 0;
        self.batch = candidates;
        self.timer = next_due;
        self.claim(0, now)
    }

    fn on_lock(&mut self, granted: bool, now: u64) -> (r: Action)
        requires
            old(self)@.wf(),
            old(self).phase == Phase::Locking,
        ensures
            (final(self)@, r@) == old(self)@.on_lock(granted, now),
            final(self)@.wf(),
    {
        if granted {
            self.phase = Phase::TakingSlot;
            Action::IncrementSlot {
                key: self.slot_key(),
                holder: self.id,
                max: self.config.concurrency,
                ttl: self.lock_ttl(),
            }
        } else {
            let len: usize = self.batch.len();
            assert(self@.batch.len() == len);
            self.claim(self.cursor + 1, now)
        }
    }

    fn on_slot(&mut self, granted: bool) -> (r: Action)
        requires
            old(self)@.wf(),
            old(self).phase == Phase::TakingSlot,
        ensures
            (final(self)@, r@) == old(self)@.on_slot(granted),
            final(self)@.wf(),
    {
        if granted {
            self.phase = Phase::Marking;
            Action::MarkInFlight {
                message_id: self.batch[self.cursor].message_id,
                recipient: self.batch[self.cursor].recipient,
            }
        } else {
            self.give_lock_back()
        }
    }

    fn on_marked(&mut self, persisted: bool) -> (r: Action)
        requires
            old(self)@.wf(),
            old(self).phase == Phase::Marking,
        ensures
            (final(self)@, r@) == old(self)@.on_marked(persisted),
            final(self)@.wf(),
    {
        if persisted {
            self.phase = Phase::Resolving;
            Action::Resolve { domain: self.batch[self.cursor].domain.clone() }
        } else {
            self.give_slot_back()
        }
    }

    /// Takes an event at `now` and says what the caller has to do next.
    pub fn step(&mut self, event: Event, now: u64) -> (r: Action)
        requires
            old(self)@.wf(),
        ensures
            (final(self)@, r@) == old(self)@.step(event@, now),
            final(self)@.wf(),
    {
        match event {
            Event::Refresh { message } => self.on_wake(),
            Event::Timer => self.on_wake(),
            Event::Due { candidates, next_due } => {
                if self.phase == Phase::Scanning {
                    self.on_due(candidates, next_due, now)
                } else {
                    Action::Ignore
                }
            },
            Event::Lock { granted } => {
                if self.phase == Phase::Locking {
                    self.on_lock(granted, now)
                } else {
                    Action::Ignore
                }
            },
            Event::Slot { granted } => {
                if self.phase == Phase::TakingSlot {
                    self.on_slot(granted)
                } else {
                    Action::Ignore
                }
            },
            Event::Marked { persisted } => {
                if self.phase == Phase::Marking {
                    self.on_marked(persisted)
                } else {
                    Action::Ignore
                }
            },
            Event::Routed(step) => {
                if self.phase == Phase::Resolving {
                    self.routed(step, now)
                } else {
                    Action::Ignore
                }
            },
            Event::Attempted { outcome } => {
                if self.phase == Phase::Attempting {
                    self.settle(outcome, now)
                } else {
                    Action::Ignore
                }
            },
            Event::Persisted { persisted } => {
                if self.phase == Phase::Persisting {
                    self.give_slot_back()
                } else {
                    Action::Ignore
                }
            },
            Event::SlotReleased => {
                if self.phase == Phase::ReleasingSlot {
                    self.give_lock_back()
                } else {
                    Action::Ignore
                }
            },
            Event::LockReleased => {
                if self.phase == Phase::ReleasingLock {
                    let len: usize = self.batch.len();
                    assert(self@.batch.len() == len);
                    self.claim(self.cursor + 1, now)
                } else {
                    Action::Ignore
                }
            },
        }
    }
}

/// A refresh is a signal and no more: whatever it is scoped to, it does
/// what the timer does. It starts a scan if the worker is idle and is
/// remembered if not, and it never touches what the worker works on.
pub proof fn lemma_refresh_is_a_signal(w: WorkerView, message: Option<u64>, now: u64)
    ensures
        w.step(EventView::Refresh { message }, now) == w.step(EventView::Timer, now),
        ({
            let v = w.step(EventView::Refresh { message }, now).0;
            &&& v.batch == w.batch
            &&& v.cursor == w.cursor
            &&& v.claimed_at == w.claimed_at
            &&& v.timer == w.timer
            &&& w.phase == Phase::Idle ==> v.phase == Phase::Scanning
            &&& w.phase != Phase::Idle ==> v.phase == w.phase && v.rescan
        }),
{
}

/// A signal that arrives while the worker is busy is not lost: when the
/// batch ends, the worker scans again instead of idling.
pub proof fn lemma_busy_worker_scans_again(w: WorkerView, now: u64)
    requires
        w.rescan,
    ensures
        w.claim(w.batch.len() as int, now).1 == ActionView::Scan,
        w.claim(w.batch.len() as int, now).0.phase == Phase::Scanning,
{
}

} // verus!
