//! Queue entries: a message, its recipients, and the delivery state that each
//! recipient moves through.

use vstd::prelude::*;
use crate::scheduler::{lemma_due_times_increase, Cause, Decision, DecisionView, OutcomeView, RetryPolicy};

verus! {

/// Where a recipient stands.
#[derive(Debug, PartialEq, Eq)]
pub enum Status {
    Pending,
    InFlight,
    Delivered,
    TemporaryFailure { retry_count: u32, next_due: u64 },
    PermanentFailure { reason: String },
    DeadLettered,
}

pub enum StatusView {
    Pending,
    InFlight,
    Delivered,
    TemporaryFailure { retry_count: u32, next_due: u64 },
    PermanentFailure { reason: Seq<char> },
    DeadLettered,
}

impl View for Status {
    type V = StatusView;

    open spec fn view(&self) -> StatusView {
        match self {
            Status::Pending => StatusView::Pending,
            Status::InFlight => StatusView::InFlight,
            Status::Delivered => StatusView::Delivered,
            Status::TemporaryFailure { retry_count, next_due } => StatusView::TemporaryFailure {
                retry_count: *retry_count,
                next_due: *next_due,
            },
            Status::PermanentFailure { reason } => StatusView::PermanentFailure { reason: reason@ },
            Status::DeadLettered => StatusView::DeadLettered,
        }
    }
}

impl StatusView {
    /// A terminal state is never left: delivered, failed for good, or given up.
    pub open spec fn is_terminal(self) -> bool {
        self is Delivered || self is PermanentFailure || self is DeadLettered
    }
}

impl Status {
    pub fn is_terminal(&self) -> (r: bool)
        ensures
            r == self@.is_terminal(),
    {
        match self {
            Status::Delivered => true,
            Status::PermanentFailure { .. } => true,
            Status::DeadLettered => true,
            _ => false,
        }
    }
}

/// One destination of a message.
#[derive(Debug, PartialEq, Eq)]
pub struct RecipientEntry {
    pub address: String,
    pub domain: String,
    pub status: Status,
    pub last_attempt: Option<u64>,
    pub retry_count: u32,
}

pub struct RecipientView {
    pub address: Seq<char>,
    pub domain: Seq<char>,
    pub status: StatusView,
    pub last_attempt: Option<u64>,
    pub retry_count: u32,
}

impl View for RecipientEntry {
    type V = RecipientView;

    open spec fn view(&self) -> RecipientView {
        RecipientView {
            address: self.address@,
            domain: self.domain@,
            status: self.status@,
            last_attempt: self.last_attempt,
            retry_count: self.retry_count,
        }
    }
}

impl RecipientView {
    /// When the recipient is due, if it still is: a pending one since its
    /// message was queued, a failed one at its retry time, and one in flight
    /// since its attempt began, so that it can be claimed again once the
    /// claim's lock has run out.
    pub open spec fn due(self, created: u64) -> Option<u64> {
        match self.status {
            StatusView::Pending => Some(created),
            StatusView::InFlight => match self.last_attempt {
                Some(at) => Some(at),
                None => Some(created),
            },
            StatusView::TemporaryFailure { retry_count, next_due } => Some(next_due),
            _ => None,
        }
    }

    /// The recipient once an attempt on it has begun at `now`: in flight, if
    /// it was not in a terminal state.
    pub open spec fn begun(self, now: u64) -> RecipientView {
        if self.status.is_terminal() {
            self
        } else {
            RecipientView { status: StatusView::InFlight, last_attempt: Some(now), ..self }
        }
    }

    /// The recipient once a decision has been applied: only one in flight
    /// takes it.
    pub open spec fn completed(self, decision: DecisionView) -> RecipientView {
        if !(self.status is InFlight) {
            self
        } else {
            match decision {
                DecisionView::Delivered => RecipientView { status: StatusView::Delivered, ..self },
                DecisionView::RetryAt { due, retry_count } => RecipientView {
                    status: StatusView::TemporaryFailure { retry_count, next_due: due },
                    retry_count,
                    ..self
                },
                DecisionView::PermanentFailure { reason } => RecipientView {
                    status: StatusView::PermanentFailure { reason },
                    ..self
                },
                DecisionView::DeadLetter => RecipientView {
                    status: StatusView::DeadLettered,
                    ..self
                },
            }
        }
    }
}

impl RecipientEntry {
    /// A recipient that no attempt has been made on.
    pub fn new(address: String, domain: String) -> (r: RecipientEntry)
        ensures
            r@ == (RecipientView {
                address: address@,
                domain: domain@,
                status: StatusView::Pending,
                last_attempt: None,
                retry_count: 0,
            }),
    {
        RecipientEntry { address, domain, status: Status::Pending, last_attempt: None, retry_count: 0 }
    }

    /// When the recipient is due, if it still is.
    pub fn due(&self, created: u64) -> (r: Option<u64>)
        ensures
            r == self@.due(created),
    {
        match &self.status {
            Status::Pending => Some(created),
            Status::InFlight => match self.last_attempt {
                Some(at) => Some(at),
                None => Some(created),
            },
            Status::TemporaryFailure { retry_count, next_due } => Some(*next_due),
            _ => None,
        }
    }

    /// Marks the recipient in flight for an attempt that begins at `now`.
    /// Returns whether it did: a terminal recipient stays as it is.
    pub fn begin_attempt(&mut self, now: u64) -> (r: bool)
        ensures
            final(self)@ == old(self)@.begun(now),
            r == !old(self)@.status.is_terminal(),
    {
        if self.status.is_terminal() {
            false
        } else {
            self.status = Status::InFlight;
            self.last_attempt = Some(now);
            true
        }
    }

    /// Applies the scheduler's decision to a recipient in flight. Returns
    /// whether it did: a recipient that is not in flight stays as it is.
    pub fn complete(&mut self, decision: Decision) -> (r: bool)
        ensures
            final(self)@ == old(self)@.completed(decision@),
            r == (old(self)@.status is InFlight),
    {
        match self.status {
            Status::InFlight => {},
            _ => {
                return false;
            },
        }
        match decision {
            Decision::Delivered => {
                self.status = Status::Delivered;
            },
            Decision::RetryAt { due, retry_count } => {
                self.status = Status::TemporaryFailure { retry_count, next_due: due };
                self.retry_count = retry_count;
            },
            Decision::PermanentFailure { reason } => {
                self.status = Status::PermanentFailure { reason };
            },
            Decision::DeadLetter => {
                self.status = Status::DeadLettered;
            },
        }
        true
    }
}

/// A decision takes effect once: applying it a second time changes nothing.
pub proof fn lemma_complete_idempotent(entry: RecipientView, decision: DecisionView)
    ensures
        entry.completed(decision).completed(decision) == entry.completed(decision),
        !(entry.completed(decision).status is InFlight),
{
}

/// A terminal recipient is never due and no transition changes it.
pub proof fn lemma_terminal_is_final(entry: RecipientView, now: u64, decision: DecisionView, created: u64)
    requires
        entry.status.is_terminal(),
    ensures
        entry.due(created) is None,
        entry.begun(now) == entry,
        entry.completed(decision) == entry,
{
}

/// A recipient whose worker died in mid-attempt is not left in flight for
/// good: it stays due from the time its attempt began, so the next worker
/// that gets its lock begins another attempt.
pub proof fn lemma_in_flight_stays_due(entry: RecipientView, created: u64, at: u64, now: u64)
    requires
        entry.status is InFlight,
        entry.last_attempt == Some(at),
    ensures
        entry.due(created) == Some(at),
        entry.begun(now).status is InFlight,
        entry.begun(now).last_attempt == Some(now),
        entry.begun(now).retry_count == entry.retry_count,
{
}

/// How many attempts a recipient can still take before it is in a terminal
/// state for certain: none if it is there, else one more than it has
/// retries left.
pub open spec fn attempts_left(entry: RecipientView, policy: RetryPolicy) -> nat {
    if entry.status.is_terminal() {
        0
    } else if entry.retry_count > policy.max_retries {
        1
    } else {
        (policy.max_retries - entry.retry_count + 1) as nat
    }
}

/// The state of a recipient after one attempt at `now` with this outcome.
pub open spec fn after_attempt(
    entry: RecipientView,
    policy: RetryPolicy,
    outcome: OutcomeView,
    now: u64,
    created: u64,
) -> RecipientView {
    entry.begun(now).completed(policy.spec_decide(outcome, entry.retry_count, now, created))
}

/// Every attempt brings a recipient nearer to a terminal state, whatever
/// its outcome, and a successful one ends there: a recipient takes at most
/// one attempt more than the policy has retries, and exactly one where the
/// remote host accepts the message. It never leaves the queue unnoticed:
/// after an attempt it is delivered, failed for good, dead-lettered, or
/// waiting for its next retry.
pub proof fn lemma_attempt_makes_progress(
    entry: RecipientView,
    policy: RetryPolicy,
    outcome: OutcomeView,
    now: u64,
    created: u64,
)
    requires
        !entry.status.is_terminal(),
    ensures
        attempts_left(after_attempt(entry, policy, outcome, now, created), policy) < attempts_left(
            entry,
            policy,
        ),
        attempts_left(entry, policy) <= policy.max_retries + 1,
        outcome is Success ==> after_attempt(entry, policy, outcome, now, created).status
            is Delivered,
        outcome is PermanentFailure ==> after_attempt(entry, policy, outcome, now, created).status
            is PermanentFailure,
        outcome is TemporaryFailure ==> after_attempt(entry, policy, outcome, now, created).status
            is TemporaryFailure || after_attempt(entry, policy, outcome, now, created).status
            is DeadLettered,
{
}

/// A recipient that fails temporarily again and again is due strictly later
/// each time, until its retries are used up and it is dead-lettered. The
/// attempt is made when the recipient is due; the last premise leaves out a
/// clock so late that the next wait no longer fits.
pub proof fn lemma_retries_are_due_later(
    entry: RecipientView,
    policy: RetryPolicy,
    cause: Cause,
    now: u64,
    created: u64,
)
    requires
        policy.wf(),
        entry.due(created) matches Some(due) && due <= now,
        now + policy.max_interval <= u64::MAX,
    ensures
        ({
            let after = after_attempt(
                entry,
                policy,
                OutcomeView::TemporaryFailure { cause },
                now,
                created,
            );
            if policy.exhausted(entry.retry_count, now, created) {
                after.status is DeadLettered
            } else {
                &&& after.status matches StatusView::TemporaryFailure { retry_count, next_due }
                &&& next_due == now + policy.backoff(entry.retry_count as nat)
                &&& next_due > entry.due(created)->0
                &&& retry_count == entry.retry_count + 1
                &&& after.due(created) == Some(next_due)
            }
        }),
{
    lemma_due_times_increase(policy, cause, entry.retry_count, entry.due(created)->0, now, created);
}

/// A queued message.
#[derive(Debug, PartialEq, Eq)]
pub struct Message {
    pub id: u64,
    /// The account that the message was queued for.
    pub account: u32,
    pub sender: String,
    pub recipients: Vec<RecipientEntry>,
    /// The blob that holds the message's content.
    pub content: Vec<u8>,
    pub created: u64,
}

pub struct MessageView {
    pub id: u64,
    pub account: u32,
    pub sender: Seq<char>,
    pub recipients: Seq<RecipientView>,
    pub content: Seq<u8>,
    pub created: u64,
}

/// The recipients of a message as the contracts see them.
pub open spec fn recipient_views(recipients: Seq<RecipientEntry>) -> Seq<RecipientView> {
    Seq::new(recipients.len(), |i: int| recipients[i]@)
}

impl View for Message {
    type V = MessageView;

    open spec fn view(&self) -> MessageView {
        MessageView {
            id: self.id,
            account: self.account,
            sender: self.sender@,
            recipients: recipient_views(self.recipients@),
            content: self.content@,
            created: self.created,
        }
    }
}

impl MessageView {
    /// Whether every recipient has reached a terminal state. Only then may
    /// the message and its content go.
    pub open spec fn is_terminal(self) -> bool {
        forall|i: int| 0 <= i < self.recipients.len() ==> (#[trigger] self.recipients[i]).status.is_terminal()
    }

    /// Whether `at` is the earliest time at which a recipient is due.
    pub open spec fn earliest_due_is(self, at: u64) -> bool {
        &&& exists|i: int|
            0 <= i < self.recipients.len() && (#[trigger] self.recipients[i]).due(self.created)
                == Some(at)
        &&& forall|i: int|
            0 <= i < self.recipients.len() ==> match (#[trigger] self.recipients[i]).due(
                self.created,
            ) {
                Some(due) => at <= due,
                None => true,
            }
    }
}

impl Message {
    /// Whether every recipient has reached a terminal state.
    pub fn is_terminal(&self) -> (r: bool)
        ensures
            r == self@.is_terminal(),
    {
        let mut i: usize = 0;
        while i < self.recipients.len()
            invariant
                i <= self.recipients.len(),
                forall|j: int| 0 <= j < i ==> (#[trigger] self@.recipients[j]).status.is_terminal(),
            decreases self.recipients.len() - i,
        {
            if !self.recipients[i].status.is_terminal() {
                assert(!self@.recipients[i as int].status.is_terminal());
                return false;
            }
            i += 1;
        }
        true
    }

    /// Whether the content may be released: it is shared by the recipients
    /// and stays until the last of them is terminal.
    pub fn content_releasable(&self) -> (r: bool)
        ensures
            r == self@.is_terminal(),
    {
        self.is_terminal()
    }

    /// The earliest time at which a recipient is due; none where every
    /// recipient is terminal.
    pub fn next_due(&self) -> (r: Option<u64>)
        ensures
            r is None <==> self@.is_terminal(),
            r matches Some(at) ==> self@.earliest_due_is(at),
    {
        let mut best: Option<u64> = None;
        let mut i: usize = 0;
        while i < self.recipients.len()
            invariant
                i <= self.recipients.len(),
                best is None ==> forall|j: int|
                    0 <= j < i ==> (#[trigger] self@.recipients[j]).status.is_terminal(),
                best matches Some(at) ==> exists|j: int|
                    0 <= j < i && (#[trigger] self@.recipients[j]).due(self.created) == Some(at),
                best matches Some(at) ==> forall|j: int|
                    0 <= j < i ==> match (#[trigger] self@.recipients[j]).due(self.created) {
                        Some(due) => at <= due,
                        None => true,
                    },
            decreases self.recipients.len() - i,
        {
            let due = self.recipients[i].due(self.created);
            assert(due == self@.recipients[i as int].due(self.created));
            match due {
                None => {},
                Some(at) => {
                    match best {
                        None => {
                            best = Some(at);
                        },
                        Some(old_best) => {
                            if at < old_best {
                                best = Some(at);
                            }
                        },
                    }
                },
            }
            i += 1;
        }
        proof {
            if best is Some {
                let at = best->0;
                let j = choose|j: int|
                    0 <= j < i && (#[trigger] self@.recipients[j]).due(self.created) == Some(at);
                assert(!self@.recipients[j].status.is_terminal());
            }
        }
        best
    }
}

} // verus!
