//! How much work a queue still holds, and that every attempt makes it less.

use vstd::prelude::*;
use crate::entry::{
    after_attempt, attempts_left, lemma_attempt_makes_progress, MessageView, RecipientView,
};
use crate::queue::{
    all_terminal, has_recipient, index_of, recipient_of, well_formed, with_recipient,
};
use crate::scheduler::{OutcomeView, RetryPolicy};

verus! {

/// The attempts that the recipients of one message can still take.
pub open spec fn attempts_left_of(entries: Seq<RecipientView>, policy: RetryPolicy) -> nat
    decreases entries.len(),
{
    if entries.len() == 0 {
        0
    } else {
        attempts_left_of(entries.drop_last(), policy) + attempts_left(entries.last(), policy)
    }
}

/// The attempts that the recipients of a queue can still take.
pub open spec fn work_left(queue: Seq<MessageView>, policy: RetryPolicy) -> nat
    decreases queue.len(),
{
    if queue.len() == 0 {
        0
    } else {
        work_left(queue.drop_last(), policy) + attempts_left_of(queue.last().recipients, policy)
    }
}

/// How many recipients a queue holds.
pub open spec fn recipients_in(queue: Seq<MessageView>) -> nat
    decreases queue.len(),
{
    if queue.len() == 0 {
        0
    } else {
        recipients_in(queue.drop_last()) + queue.last().recipients.len()
    }
}

proof fn lemma_entries_replace(
    entries: Seq<RecipientView>,
    j: int,
    entry: RecipientView,
    policy: RetryPolicy,
)
    requires
        0 <= j < entries.len(),
    ensures
        attempts_left_of(entries.update(j, entry), policy) + attempts_left(entries[j], policy)
            == attempts_left_of(entries, policy) + attempts_left(entry, policy),
    decreases entries.len(),
{
    let changed = entries.update(j, entry);
    if j == entries.len() - 1 {
        assert(changed.drop_last() =~= entries.drop_last());
    } else {
        assert(changed.drop_last() =~= entries.drop_last().update(j, entry));
        lemma_entries_replace(entries.drop_last(), j, entry, policy);
    }
}

proof fn lemma_message_replace(
    queue: Seq<MessageView>,
    i: int,
    message: MessageView,
    policy: RetryPolicy,
)
    requires
        0 <= i < queue.len(),
    ensures
        work_left(queue.update(i, message), policy) + attempts_left_of(
            queue[i].recipients,
            policy,
        ) == work_left(queue, policy) + attempts_left_of(message.recipients, policy),
    decreases queue.len(),
{
    let changed = queue.update(i, message);
    if i == queue.len() - 1 {
        assert(changed.drop_last() =~= queue.drop_last());
    } else {
        assert(changed.drop_last() =~= queue.drop_last().update(i, message));
        lemma_message_replace(queue.drop_last(), i, message, policy);
    }
}

proof fn lemma_entries_done(entries: Seq<RecipientView>, policy: RetryPolicy)
    ensures
        attempts_left_of(entries, policy) == 0 <==> forall|j: int|
            0 <= j < entries.len() ==> (#[trigger] entries[j]).status.is_terminal(),
        attempts_left_of(entries, policy) <= entries.len() * (policy.max_retries + 1),
    decreases entries.len(),
{
    if entries.len() > 0 {
        let rest = entries.drop_last();
        lemma_entries_done(rest, policy);
        assert forall|j: int| 0 <= j < rest.len() implies rest[j] == entries[j] by {}
        if attempts_left_of(entries, policy) == 0 {
            assert forall|j: int| 0 <= j < entries.len() implies (
            #[trigger] entries[j]).status.is_terminal() by {
                if j < rest.len() {
                    assert(rest[j].status.is_terminal());
                }
            }
        }
        if forall|j: int| 0 <= j < entries.len() ==> (#[trigger] entries[j]).status.is_terminal() {
            assert(entries.last().status.is_terminal());
            assert forall|j: int| 0 <= j < rest.len() implies (
            #[trigger] rest[j]).status.is_terminal() by {
                assert(entries[j].status.is_terminal());
            }
        }
        assert(attempts_left(entries.last(), policy) <= policy.max_retries + 1);
        assert(rest.len() * (policy.max_retries + 1) + (policy.max_retries + 1) == entries.len() * (
        policy.max_retries + 1)) by (nonlinear_arith)
            requires
                rest.len() + 1 == entries.len(),
        ;
    }
}

/// A queue has no work left exactly when nothing is left to deliver, and
/// it never has more than one attempt and the policy's retries for each
/// recipient.
pub proof fn lemma_work_left_bounds(queue: Seq<MessageView>, policy: RetryPolicy)
    ensures
        work_left(queue, policy) == 0 <==> all_terminal(queue),
        work_left(queue, policy) <= recipients_in(queue) * (policy.max_retries + 1),
    decreases queue.len(),
{
    if queue.len() > 0 {
        let rest = queue.drop_last();
        lemma_work_left_bounds(rest, policy);
        lemma_entries_done(queue.last().recipients, policy);
        assert forall|i: int| 0 <= i < rest.len() implies rest[i] == queue[i] by {}
        if work_left(queue, policy) == 0 {
            assert forall|i: int| 0 <= i < queue.len() implies (
            #[trigger] queue[i]).is_terminal() by {
                if i < rest.len() {
                    assert(rest[i].is_terminal());
                }
            }
        }
        if all_terminal(queue) {
            assert(queue.last().is_terminal());
            assert forall|i: int| 0 <= i < rest.len() implies (
            #[trigger] rest[i]).is_terminal() by {
                assert(queue[i].is_terminal());
            }
        }
        assert(recipients_in(rest) * (policy.max_retries + 1) + queue.last().recipients.len() * (
        policy.max_retries + 1) == recipients_in(queue) * (policy.max_retries + 1))
            by (nonlinear_arith)
            requires
                recipients_in(rest) + queue.last().recipients.len() == recipients_in(queue),
        ;
    }
}

/// Every attempt leaves the queue with less work, whatever its outcome: so
/// a burst of messages is drained after at most as many attempts as it has
/// recipients times one more than the policy has retries, and, where the
/// remote host accepts every message, after one attempt for each recipient.
pub proof fn lemma_attempt_drains(
    queue: Seq<MessageView>,
    policy: RetryPolicy,
    id: u64,
    recipient: u32,
    outcome: OutcomeView,
    now: u64,
)
    requires
        well_formed(queue),
        has_recipient(queue, id, recipient),
        !recipient_of(queue, id, recipient).status.is_terminal(),
    ensures
        ({
            let entry = recipient_of(queue, id, recipient);
            let created = queue[index_of(queue, id)].created;
            let after = with_recipient(
                queue,
                id,
                recipient,
                after_attempt(entry, policy, outcome, now, created),
            );
            &&& work_left(after, policy) < work_left(queue, policy)
            &&& outcome is Success ==> work_left(after, policy) + attempts_left(entry, policy)
                == work_left(queue, policy)
        }),
{
    let i = index_of(queue, id);
    let entry = recipient_of(queue, id, recipient);
    let created = queue[i].created;
    let next = after_attempt(entry, policy, outcome, now, created);
    let message = MessageView {
        recipients: queue[i].recipients.update(recipient as int, next),
        ..queue[i]
    };
    lemma_attempt_makes_progress(entry, policy, outcome, now, created);
    lemma_entries_replace(queue[i].recipients, recipient as int, next, policy);
    lemma_message_replace(queue, i, message, policy);
}

} // verus!
