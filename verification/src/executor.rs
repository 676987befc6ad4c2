//! The delivery attempt as far as it is decided here: what an attempt's
//! result means for the recipient.

use vstd::prelude::*;
use crate::scheduler::{after, Cause, Outcome, OutcomeView};

verus! {

/// What came back from one attempt on one target.
#[derive(Debug, PartialEq, Eq)]
pub enum AttemptResult {
    /// The connection could not be made or broke.
    ConnectionFailed,
    /// Nothing came back in time.
    TimedOut,
    /// The remote host's final reply.
    Reply { code: u16, text: String },
}

pub enum AttemptResultView {
    ConnectionFailed,
    TimedOut,
    Reply { code: u16, text: Seq<char> },
}

impl View for AttemptResult {
    type V = AttemptResultView;

    open spec fn view(&self) -> AttemptResultView {
        match self {
            AttemptResult::ConnectionFailed => AttemptResultView::ConnectionFailed,
            AttemptResult::TimedOut => AttemptResultView::TimedOut,
            AttemptResult::Reply { code, text } => AttemptResultView::Reply {
                code: *code,
                text: text@,
            },
        }
    }
}

/// The outcome of an attempt that began at `started`, ended at `finished`
/// and had `timeout` seconds. An attempt that ran longer has timed out,
/// whatever came back. A reply in the two hundreds is success, one in the
/// five hundreds a permanent failure with the reply's text as its reason,
/// and everything else a temporary failure.
pub open spec fn spec_outcome(
    result: AttemptResultView,
    started: u64,
    finished: u64,
    timeout: u64,
) -> OutcomeView {
    if finished > started + timeout {
        OutcomeView::TemporaryFailure { cause: Cause::Timeout }
    } else {
        match result {
            AttemptResultView::ConnectionFailed => OutcomeView::TemporaryFailure {
                cause: Cause::Connection,
            },
            AttemptResultView::TimedOut => OutcomeView::TemporaryFailure { cause: Cause::Timeout },
            AttemptResultView::Reply { code, text } => if 200 <= code <= 299 {
                OutcomeView::Success
            } else if 500 <= code <= 599 {
                OutcomeView::PermanentFailure { cause: Cause::Response { code }, reason: text }
            } else {
                OutcomeView::TemporaryFailure { cause: Cause::Response { code } }
            },
        }
    }
}

/// Classifies what came back from an attempt.
pub fn attempt_outcome(result: AttemptResult, started: u64, finished: u64, timeout: u64) -> (r:
    Outcome)
    ensures
        r@ == spec_outcome(result@, started, finished, timeout),
{
    if finished > started && finished - started > timeout {
        return Outcome::TemporaryFailure { cause: Cause::Timeout };
    }
    match result {
        AttemptResult::ConnectionFailed => Outcome::TemporaryFailure { cause: Cause::Connection },
        AttemptResult::TimedOut => Outcome::TemporaryFailure { cause: Cause::Timeout },
        AttemptResult::Reply { code, text } => {
            if code >= 200 && code <= 299 {
                Outcome::Success
            } else if code >= 500 && code <= 599 {
                Outcome::PermanentFailure { cause: Cause::Response { code }, reason: text }
            } else {
                Outcome::TemporaryFailure { cause: Cause::Response { code } }
            }
        },
    }
}

/// The time by which an attempt that begins at `started` has to be over.
pub fn attempt_deadline(started: u64, timeout: u64) -> (r: u64)
    ensures
        r == after(started, timeout as nat),
{
    if timeout <= u64::MAX - started {
        started + timeout
    } else {
        u64::MAX
    }
}

/// An attempt never reports success or a permanent failure after its time
/// has run out.
pub proof fn lemma_late_attempt_times_out(
    result: AttemptResultView,
    started: u64,
    finished: u64,
    timeout: u64,
)
    requires
        finished > started + timeout,
    ensures
        spec_outcome(result, started, finished, timeout) == (OutcomeView::TemporaryFailure {
            cause: Cause::Timeout,
        }),
{
}

} // verus!
