//! Retry policy: what becomes of a recipient after a delivery attempt, and
//! when a failed one is due again.

use vstd::prelude::*;
use vstd::arithmetic::power2::{pow2, lemma_pow2_unfold};

verus! {

/// Why an attempt failed.
#[derive(Clone, Copy, Debug, PartialEq, Eq, Structural)]
pub enum Cause {
    /// The remote host refused the connection or dropped it.
    Connection,
    /// The attempt ran out of time.
    Timeout,
    /// The destination could not be resolved.
    Resolution,
    /// The destination has no mail routing at all.
    NoRoute,
    /// The remote host answered with this code.
    Response { code: u16 },
}

/// What one delivery attempt reports.
#[derive(Debug, PartialEq, Eq)]
pub enum Outcome {
    Success,
    TemporaryFailure { cause: Cause },
    PermanentFailure { cause: Cause, reason: String },
}

pub enum OutcomeView {
    Success,
    TemporaryFailure { cause: Cause },
    PermanentFailure { cause: Cause, reason: Seq<char> },
}

impl View for Outcome {
    type V = OutcomeView;

    open spec fn view(&self) -> OutcomeView {
        match self {
            Outcome::Success => OutcomeView::Success,
            Outcome::TemporaryFailure { cause } => OutcomeView::TemporaryFailure { cause: *cause },
            Outcome::PermanentFailure { cause, reason } => OutcomeView::PermanentFailure {
                cause: *cause,
                reason: reason@,
            },
        }
    }
}

/// What the scheduler makes of an outcome.
#[derive(Debug, PartialEq, Eq)]
pub enum Decision {
    Delivered,
    RetryAt { due: u64, retry_count: u32 },
    PermanentFailure { reason: String },
    DeadLetter,
}

pub enum DecisionView {
    Delivered,
    RetryAt { due: u64, retry_count: u32 },
    PermanentFailure { reason: Seq<char> },
    DeadLetter,
}

impl View for Decision {
    type V = DecisionView;

    open spec fn view(&self) -> DecisionView {
        match self {
            Decision::Delivered => DecisionView::Delivered,
            Decision::RetryAt { due, retry_count } => DecisionView::RetryAt {
                due: *due,
                retry_count: *retry_count,
            },
            Decision::PermanentFailure { reason } => DecisionView::PermanentFailure {
                reason: reason@,
            },
            Decision::DeadLetter => DecisionView::DeadLetter,
        }
    }
}

/// The retry settings. Times are in seconds.
#[derive(Clone, Copy, Debug, PartialEq, Eq, Structural)]
pub struct RetryPolicy {
    /// The wait after the first failure.
    pub base_interval: u64,
    /// The longest wait between two attempts.
    pub max_interval: u64,
    /// How many retries a recipient gets.
    pub max_retries: u32,
    /// How long a message may stay queued.
    pub max_age: u64,
}

/// `base` doubled `times` times.
pub open spec fn doubled(base: nat, times: nat) -> nat
    decreases times,
{
    if times == 0 {
        base
    } else {
        2 * doubled(base, (times - 1) as nat)
    }
}

/// Doubling `times` times multiplies by two to the power of `times`.
pub proof fn lemma_doubled_is_power(base: nat, times: nat)
    ensures
        doubled(base, times) == base * pow2(times),
    decreases times,
{
    if times == 0 {
        assert(pow2(0) == 1) by {
            vstd::arithmetic::power2::lemma_pow2(0);
            vstd::arithmetic::power::lemma_pow0(2);
        }
    } else {
        lemma_pow2_unfold(times);
        lemma_doubled_is_power(base, (times - 1) as nat);
        assert(2 * (base * pow2((times - 1) as nat)) == base * (2 * pow2((times - 1) as nat)))
            by (nonlinear_arith);
    }
}

/// Doubling more often gives no less.
pub proof fn lemma_doubled_monotonic(base: nat, a: nat, b: nat)
    requires
        a <= b,
    ensures
        doubled(base, a) <= doubled(base, b),
    decreases b,
{
    if a < b {
        lemma_doubled_monotonic(base, a, (b - 1) as nat);
    }
}

/// The seconds between two points in time; none where the clock went back.
pub open spec fn elapsed(now: u64, since: u64) -> nat {
    if now >= since {
        (now - since) as nat
    } else {
        0
    }
}

/// The point in time `interval` seconds after `now`, at most the last one
/// that the clock can show.
pub open spec fn after(now: u64, interval: nat) -> u64 {
    if now + interval <= u64::MAX {
        (now + interval) as u64
    } else {
        u64::MAX
    }
}

impl RetryPolicy {
    /// A policy waits at least a second, and its first wait is no longer
    /// than its longest.
    pub open spec fn wf(&self) -> bool {
        1 <= self.base_interval <= self.max_interval
    }

    /// The wait after a failure that follows `retry_count` retries: the base
    /// interval doubled once per retry, capped at the longest wait.
    pub open spec fn backoff(&self, retry_count: nat) -> nat {
        let grown = doubled(self.base_interval as nat, retry_count);
        if grown < self.max_interval {
            grown
        } else {
            self.max_interval as nat
        }
    }

    /// Whether a recipient that fails again is given up: it has used its
    /// retries, or its message is too old.
    pub open spec fn exhausted(&self, retry_count: u32, now: u64, created: u64) -> bool {
        retry_count >= self.max_retries || elapsed(now, created) > self.max_age
    }

    /// What becomes of a recipient after an attempt.
    pub open spec fn spec_decide(
        &self,
        outcome: OutcomeView,
        retry_count: u32,
        now: u64,
        created: u64,
    ) -> DecisionView {
        match outcome {
            OutcomeView::Success => DecisionView::Delivered,
            OutcomeView::PermanentFailure { cause, reason } => DecisionView::PermanentFailure {
                reason,
            },
            OutcomeView::TemporaryFailure { cause } => if self.exhausted(
                retry_count,
                now,
                created,
            ) {
                DecisionView::DeadLetter
            } else {
                DecisionView::RetryAt {
                    due: after(now, self.backoff(retry_count as nat)),
                    retry_count: (retry_count + 1) as u32,
                }
            },
        }
    }

    /// Whether the policy is well formed.
    pub fn is_valid(&self) -> (r: bool)
        ensures
            r == self.wf(),
    {
        1 <= self.base_interval && self.base_interval <= self.max_interval
    }

    /// Computes the wait after a failure that follows `retry_count` retries.
    pub fn backoff_interval(&self, retry_count: u32) -> (r: u64)
        requires
            self.wf(),
        ensures
            r == self.backoff(retry_count as nat),
    {
        let mut interval: u64 = self.base_interval;
        let mut i: u32 = 0;
        while i < retry_count && interval < self.max_interval
            invariant
                i <= retry_count,
                self.wf(),
                interval == self.backoff(i as nat),
                interval < self.max_interval ==> interval == doubled(
                    self.base_interval as nat,
                    i as nat,
                ),
                interval >= self.max_interval ==> doubled(self.base_interval as nat, i as nat)
                    >= self.max_interval,
            decreases retry_count - i,
        {
            if interval > self.max_interval - interval {
                interval = self.max_interval;
            } else {
                interval = interval * 2;
            }
            i += 1;
        }
        proof {
            lemma_doubled_monotonic(self.base_interval as nat, i as nat, retry_count as nat);
        }
        interval
    }

    /// Decides what becomes of a recipient after an attempt at `now`, given
    /// how many retries it has had and when its message was queued.
    pub fn decide(&self, outcome: Outcome, previous_retry_count: u32, now: u64, created: u64) -> (r:
        Decision)
        requires
            self.wf(),
        ensures
            r@ == self.spec_decide(outcome@, previous_retry_count, now, created),
    {
        match outcome {
            Outcome::Success => Decision::Delivered,
            Outcome::PermanentFailure { cause, reason } => Decision::PermanentFailure { reason },
            Outcome::TemporaryFailure { cause } => {
                let age: u64 = if now >= created {
                    now - created
                } else {
                    0
                };
                if previous_retry_count >= self.max_retries || age > self.max_age {
                    Decision::DeadLetter
                } else {
                    let interval: u64 = self.backoff_interval(previous_retry_count);
                    let due: u64 = if interval <= u64::MAX - now {
                        now + interval
                    } else {
                        u64::MAX
                    };
                    Decision::RetryAt { due, retry_count: previous_retry_count + 1 }
                }
            },
        }
    }
}

/// The wait never shrinks from one retry to the next, is at least the base
/// interval and at most the longest wait.
pub proof fn lemma_backoff_grows(policy: RetryPolicy, a: nat, b: nat)
    requires
        policy.wf(),
        a <= b,
    ensures
        policy.base_interval <= policy.backoff(a) <= policy.backoff(b) <= policy.max_interval,
{
    lemma_doubled_monotonic(policy.base_interval as nat, 0, a);
    lemma_doubled_monotonic(policy.base_interval as nat, a, b);
}

/// A recipient that keeps failing temporarily is due strictly later after
/// each failure: an attempt is made no earlier than the recipient was due,
/// and the next due time lies after the attempt. The one exception is a clock
/// so late that the wait no longer fits, which the last premise leaves out.
pub proof fn lemma_due_times_increase(
    policy: RetryPolicy,
    cause: Cause,
    retry_count: u32,
    previous_due: u64,
    now: u64,
    created: u64,
)
    requires
        policy.wf(),
        previous_due <= now,
        now + policy.max_interval <= u64::MAX,
    ensures
        match policy.spec_decide(
            OutcomeView::TemporaryFailure { cause },
            retry_count,
            now,
            created,
        ) {
            DecisionView::RetryAt { due, retry_count: next } => due > previous_due && due
                == now + policy.backoff(retry_count as nat) && next == retry_count + 1
                && next <= policy.max_retries,
            DecisionView::DeadLetter => policy.exhausted(retry_count, now, created),
            _ => false,
        },
{
    lemma_backoff_grows(policy, retry_count as nat, retry_count as nat);
}

/// Once the retries are used up, the next temporary failure dead-letters the
/// recipient; so a recipient is retried at most `max_retries` times.
pub proof fn lemma_retry_cap(policy: RetryPolicy, cause: Cause, retry_count: u32, now: u64, created: u64)
    requires
        retry_count >= policy.max_retries,
    ensures
        policy.spec_decide(OutcomeView::TemporaryFailure { cause }, retry_count, now, created)
            == DecisionView::DeadLetter,
{
}

} // verus!
