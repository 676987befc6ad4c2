//! The queue state: the messages that wait for delivery, and the operations
//! that workers and administrators have on them.

use vstd::prelude::*;
use crate::entry::{recipient_views, Message, MessageView, RecipientEntry, RecipientView};
use crate::keyed::same_bytes;
use crate::manager::{candidate_views, Candidate, CandidateView};
use crate::resolver::name_key;
use crate::scheduler::{Decision, DecisionView};
use crate::seqs::{kept, lemma_kept_members};
use crate::text::{
    bytes_before, lemma_bytes_before_total, lemma_bytes_before_transitive, stands_before,
};

verus! {

/// The messages of a list as the contracts see them.
pub open spec fn message_views(messages: Seq<Message>) -> Seq<MessageView> {
    Seq::new(messages.len(), |i: int| messages[i]@)
}

/// Whether the queue holds a message with the identifier.
pub open spec fn has_message(queue: Seq<MessageView>, id: u64) -> bool {
    exists|i: int| 0 <= i < queue.len() && (#[trigger] queue[i]).id == id
}

/// The place of the message with the identifier.
pub open spec fn index_of(queue: Seq<MessageView>, id: u64) -> int {
    choose|i: int| 0 <= i < queue.len() && (#[trigger] queue[i]).id == id
}

/// Whether the queue holds the recipient of the message.
pub open spec fn has_recipient(queue: Seq<MessageView>, id: u64, recipient: u32) -> bool {
    has_message(queue, id) && recipient < queue[index_of(queue, id)].recipients.len()
}

/// The recipient of the message.
pub open spec fn recipient_of(queue: Seq<MessageView>, id: u64, recipient: u32) -> RecipientView {
    queue[index_of(queue, id)].recipients[recipient as int]
}

/// The queue with one recipient replaced.
pub open spec fn with_recipient(
    queue: Seq<MessageView>,
    id: u64,
    recipient: u32,
    entry: RecipientView,
) -> Seq<MessageView> {
    let i = index_of(queue, id);
    queue.update(
        i,
        MessageView { recipients: queue[i].recipients.update(recipient as int, entry), ..queue[i] },
    )
}

/// No two messages share an identifier, and a message's recipients can be
/// numbered in thirty-two bits.
pub open spec fn well_formed(queue: Seq<MessageView>) -> bool {
    &&& forall|i: int, j: int|
        0 <= i < j < queue.len() ==> (#[trigger] queue[i]).id != (#[trigger] queue[j]).id
    &&& forall|i: int| 0 <= i < queue.len() ==> (#[trigger] queue[i]).recipients.len() <= u32::MAX
}

/// Whether a purge of the account takes the message; a purge without an
/// account takes every message.
pub open spec fn purged(m: MessageView, account: Option<u32>) -> bool {
    match account {
        Some(id) => m.account == id,
        None => true,
    }
}

/// Whether no recipient of any message still waits or is in flight.
pub open spec fn all_terminal(queue: Seq<MessageView>) -> bool {
    forall|i: int| 0 <= i < queue.len() ==> (#[trigger] queue[i]).is_terminal()
}

/// Whether no recipient of any message of the account still waits or is in
/// flight.
pub open spec fn all_terminal_for(queue: Seq<MessageView>, account: u32) -> bool {
    forall|i: int|
        0 <= i < queue.len() && (#[trigger] queue[i]).account == account
            ==> queue[i].is_terminal()
}

/// With distinct identifiers, a message's identifier leads back to it.
pub proof fn lemma_index_of(queue: Seq<MessageView>, i: int)
    requires
        well_formed(queue),
        0 <= i < queue.len(),
    ensures
        has_message(queue, queue[i].id),
        index_of(queue, queue[i].id) == i,
{
    let p = index_of(queue, queue[i].id);
    assert(0 <= p < queue.len() && queue[p].id == queue[i].id);
    if p < i {
        assert(queue[p].id != queue[i].id);
    } else if i < p {
        assert(queue[i].id != queue[p].id);
    }
}

/// The queue state.
pub struct Queue {
    pub messages: Vec<Message>,
}

impl View for Queue {
    type V = Seq<MessageView>;

    open spec fn view(&self) -> Seq<MessageView> {
        message_views(self.messages@)
    }
}

impl Queue {
    pub open spec fn wf(&self) -> bool {
        well_formed(self@)
    }

    /// A queue without messages.
    pub fn new() -> (r: Queue)
        ensures
            r@ == Seq::<MessageView>::empty(),
            r.wf(),
    {
        let r = Queue { messages: Vec::new() };
        assert(r@ =~= Seq::<MessageView>::empty());
        r
    }

    /// The place of the message with the identifier, if the queue holds it.
    pub fn find(&self, id: u64) -> (r: Option<usize>)
        requires
            self.wf(),
        ensures
            r is Some == has_message(self@, id),
            r matches Some(i) ==> i == index_of(self@, id) && i < self@.len(),
    {
        let mut i: usize = 0;
        while i < self.messages.len()
            invariant
                i <= self.messages.len(),
                self.wf(),
                forall|k: int| 0 <= k < i ==> (#[trigger] self@[k]).id != id,
            decreases self.messages.len() - i,
        {
            if self.messages[i].id == id {
                proof {
                    assert(self@[i as int].id == id);
                    lemma_index_of(self@, i as int);
                }
                return Some(i);
            }
            i += 1;
        }
        None
    }

    /// Appends a message. Returns whether it did: a message whose
    /// identifier is taken, or with more recipients than can be numbered,
    /// is not accepted.
    pub fn append(&mut self, message: Message) -> (r: bool)
        requires
            old(self).wf(),
        ensures
            final(self).wf(),
            r == (!has_message(old(self)@, message.id) && message.recipients@.len()
                <= u32::MAX),
            r ==> final(self)@ == old(self)@.push(message@),
            !r ==> final(self)@ == old(self)@,
    {
        if message.recipients.len() > 0xFFFF_FFFF {
            return false;
        }
        if self.find(message.id).is_some() {
            return false;
        }
        let ghost view = message@;
        self.messages.push(message);
        proof {
            assert(self@ =~= old(self)@.push(view));
            assert forall|i: int, j: int| 0 <= i < j < self@.len() implies (
            #[trigger] self@[i]).id != (#[trigger] self@[j]).id by {
                if j < old(self)@.len() {
                    assert(self@[i] == old(self)@[i] && self@[j] == old(self)@[j]);
                } else {
                    assert(self@[i] == old(self)@[i]);
                }
            }
            assert forall|i: int| 0 <= i < self@.len() implies (
            #[trigger] self@[i]).recipients.len() <= u32::MAX by {
                if i < old(self)@.len() {
                    assert(self@[i] == old(self)@[i]);
                }
            }
        }
        true
    }

    /// Deletes the message with the identifier. Returns whether the queue
    /// held it.
    pub fn delete(&mut self, id: u64) -> (r: bool)
        requires
            old(self).wf(),
        ensures
            final(self).wf(),
            r == has_message(old(self)@, id),
            r ==> final(self)@ == old(self)@.remove(index_of(old(self)@, id)),
            !r ==> final(self)@ == old(self)@,
            !has_message(final(self)@, id),
    {
        match self.find(id) {
            None => false,
            Some(i) => {
                self.messages.remove(i);
                proof {
                    let before = old(self)@;
                    let after = self@;
                    assert(after =~= before.remove(i as int));
                    assert forall|a: int| 0 <= a < after.len() implies (#[trigger] after[a]).id
                        != id && after[a].recipients.len() <= u32::MAX by {
                        let a0 = if a < i { a } else { a + 1 };
                        assert(after[a] == before[a0]);
                        if a0 < i {
                            assert(before[a0].id != before[i as int].id);
                        } else {
                            assert(before[i as int].id != before[a0].id);
                        }
                    }
                    assert forall|a: int, b: int| 0 <= a < b < after.len() implies (
                    #[trigger] after[a]).id != (#[trigger] after[b]).id by {
                        let a0 = if a < i { a } else { a + 1 };
                        let b0 = if b < i { b } else { b + 1 };
                        assert(after[a] == before[a0] && after[b] == before[b0]);
                    }
                }
                true
            },
        }
    }

    /// Replaces one recipient of the message at place `i`.
    fn put_recipient(&mut self, i: usize, recipient: usize, entry: RecipientEntry)
        requires
            old(self).wf(),
            i < old(self)@.len(),
            recipient < old(self)@[i as int].recipients.len(),
        ensures
            final(self).wf(),
            final(self)@ == with_recipient(
                old(self)@,
                old(self)@[i as int].id,
                recipient as u32,
                entry@,
            ),
    {
        let ghost before = self@;
        proof {
            lemma_index_of(before, i as int);
        }
        let mut message = self.messages.remove(i);
        let ghost old_recipients = recipient_views(message.recipients@);
        message.recipients.set(recipient, entry);
        proof {
            assert(recipient_views(message.recipients@) =~= old_recipients.update(
                recipient as int,
                entry@,
            ));
        }
        let ghost view = message@;
        self.messages.insert(i, message);
        proof {
            let after = self@;
            assert(after =~= before.update(i as int, view));
            assert forall|a: int, b: int| 0 <= a < b < after.len() implies (
            #[trigger] after[a]).id != (#[trigger] after[b]).id by {
                assert(after[a].id == before[a].id && after[b].id == before[b].id);
            }
            assert forall|a: int| 0 <= a < after.len() implies (
            #[trigger] after[a]).recipients.len() <= u32::MAX by {
                assert(after[a].recipients.len() == before[a].recipients.len());
            }
        }
    }

    /// Marks a recipient in flight for an attempt that begins at `now`.
    /// Returns whether it did: a recipient that the queue does not hold, or
    /// that is not due, is left alone. So a worker that goes by an old scan
    /// learns here that the recipient was dealt with meanwhile.
    pub fn mark_in_flight(&mut self, id: u64, recipient: u32, now: u64) -> (r: bool)
        requires
            old(self).wf(),
        ensures
            final(self).wf(),
            r == (has_recipient(old(self)@, id, recipient) && is_due(
                old(self)@[index_of(old(self)@, id)],
                recipient as int,
                now,
            )),
            r ==> final(self)@ == with_recipient(
                old(self)@,
                id,
                recipient,
                recipient_of(old(self)@, id, recipient).begun(now),
            ),
            !r ==> final(self)@ == old(self)@,
    {
        let i = match self.find(id) {
            None => {
                return false;
            },
            Some(i) => i,
        };
        let j: usize = recipient as usize;
        assert(self@[i as int].recipients.len() == self.messages@[i as int].recipients@.len());
        if j >= self.messages[i].recipients.len() {
            return false;
        }
        assert(self@[i as int].recipients[j as int] == self.messages@[i as int].recipients@[j as int]@);
        match self.messages[i].recipients[j].due(self.messages[i].created) {
            None => {
                return false;
            },
            Some(due) => {
                if due > now {
                    return false;
                }
            },
        }
        let entry = RecipientEntry {
            address: self.messages[i].recipients[j].address.clone(),
            domain: self.messages[i].recipients[j].domain.clone(),
            status: crate::entry::Status::InFlight,
            last_attempt: Some(now),
            retry_count: self.messages[i].recipients[j].retry_count,
        };
        self.put_recipient(i, j, entry);
        true
    }

    /// Applies the scheduler's decision to a recipient. Returns whether it
    /// did: a recipient that the queue does not hold, or that is not in
    /// flight, is left alone.
    pub fn persist(&mut self, id: u64, recipient: u32, decision: Decision) -> (r: bool)
        requires
            old(self).wf(),
        ensures
            final(self).wf(),
            r == (has_recipient(old(self)@, id, recipient) && recipient_of(
                old(self)@,
                id,
                recipient,
            ).status is InFlight),
            r ==> final(self)@ == with_recipient(
                old(self)@,
                id,
                recipient,
                recipient_of(old(self)@, id, recipient).completed(decision@),
            ),
            !r ==> final(self)@ == old(self)@,
    {
        let i = match self.find(id) {
            None => {
                return false;
            },
            Some(i) => i,
        };
        let j: usize = recipient as usize;
        assert(self@[i as int].recipients.len() == self.messages@[i as int].recipients@.len());
        if j >= self.messages[i].recipients.len() {
            return false;
        }
        assert(self@[i as int].recipients[j as int] == self.messages@[i as int].recipients@[j as int]@);
        match self.messages[i].recipients[j].status {
            crate::entry::Status::InFlight => {},
            _ => {
                return false;
            },
        }
        let mut entry = RecipientEntry {
            address: self.messages[i].recipients[j].address.clone(),
            domain: self.messages[i].recipients[j].domain.clone(),
            status: crate::entry::Status::InFlight,
            last_attempt: self.messages[i].recipients[j].last_attempt,
            retry_count: self.messages[i].recipients[j].retry_count,
        };
        entry.complete(decision);
        self.put_recipient(i, j, entry);
        true
    }

    /// Whether nothing is left to deliver: false as soon as one recipient is
    /// not in a terminal state.
    pub fn is_empty(&self) -> (r: bool)
        ensures
            r == all_terminal(self@),
    {
        let mut i: usize = 0;
        while i < self.messages.len()
            invariant
                i <= self.messages.len(),
                forall|k: int| 0 <= k < i ==> (#[trigger] self@[k]).is_terminal(),
            decreases self.messages.len() - i,
        {
            if !self.messages[i].is_terminal() {
                assert(!self@[i as int].is_terminal());
                return false;
            }
            i += 1;
        }
        true
    }

    /// Whether nothing is left to deliver for the account.
    pub fn is_empty_for(&self, account: u32) -> (r: bool)
        ensures
            r == all_terminal_for(self@, account),
    {
        let mut i: usize = 0;
        while i < self.messages.len()
            invariant
                i <= self.messages.len(),
                forall|k: int|
                    0 <= k < i && (#[trigger] self@[k]).account == account
                        ==> self@[k].is_terminal(),
            decreases self.messages.len() - i,
        {
            if self.messages[i].account == account && !self.messages[i].is_terminal() {
                assert(self@[i as int].account == account && !self@[i as int].is_terminal());
                return false;
            }
            i += 1;
        }
        true
    }

    /// Takes out the messages that are done with, for the archive: those
    /// whose recipients are all in a terminal state. The others stay.
    pub fn take_finished(&mut self) -> (r: Vec<Message>)
        requires
            old(self).wf(),
        ensures
            final(self).wf(),
            final(self)@ == kept(old(self)@, |m: MessageView| !m.is_terminal()),
            message_views(r@) == kept(old(self)@, |m: MessageView| m.is_terminal()),
    {
        let ghost before = self@;
        let ghost open = |m: MessageView| !m.is_terminal();
        let ghost done = |m: MessageView| m.is_terminal();
        let mut taken: Vec<Message> = Vec::new();
        let mut i: usize = self.messages.len();
        proof {
            assert(before.skip(i as int) =~= Seq::<MessageView>::empty());
            assert(before.take(i as int) =~= before);
            assert(message_views(taken@) =~= Seq::<MessageView>::empty());
        }
        while i > 0
            invariant
                i <= before.len(),
                well_formed(before),
                self@ == before.take(i as int) + kept(before.skip(i as int), open),
                message_views(taken@) == kept(before.skip(i as int), done),
                open == |m: MessageView| !m.is_terminal(),
                done == |m: MessageView| m.is_terminal(),
            decreases i,
        {
            i -= 1;
            let ghost tail = kept(before.skip(i + 1), open);
            let ghost previous = self@;
            let ghost had = message_views(taken@);
            proof {
                assert(self.messages@.len() == self@.len());
                assert(self@.len() == i + 1 + tail.len());
                assert(before.take(i + 1) =~= before.take(i as int).push(before[i as int]));
                assert(before.skip(i as int).drop_first() =~= before.skip(i + 1));
                assert(before.skip(i as int)[0] == before[i as int]);
                assert(self@[i as int] == before[i as int]);
            }
            if self.messages[i].is_terminal() {
                let message = self.messages.remove(i);
                assert(message@ == before[i as int]);
                taken.insert(0, message);
                proof {
                    assert(self@ =~= previous.remove(i as int));
                    assert(previous.remove(i as int) =~= before.take(i as int) + tail);
                    assert(message_views(taken@) =~= seq![before[i as int]] + had);
                }
            } else {
                proof {
                    assert(self@ =~= before.take(i as int) + (seq![before[i as int]] + tail));
                }
            }
        }
        proof {
            assert(before.skip(0) =~= before);
            assert(before.take(0) =~= Seq::<MessageView>::empty());
            assert(self@ =~= kept(before, open));
            lemma_kept_well_formed(before, open);
        }
        taken
    }

    /// Removes every message of the account, whatever state its recipients
    /// are in; without an account, every message. Returns how many went.
    pub fn purge_account(&mut self, account: Option<u32>) -> (r: usize)
        requires
            old(self).wf(),
        ensures
            final(self).wf(),
            final(self)@ == kept(old(self)@, |m: MessageView| !purged(m, account)),
            r == old(self)@.len() - final(self)@.len(),
    {
        let ghost before = self@;
        let ghost keep = |m: MessageView| !purged(m, account);
        let mut removed: usize = 0;
        let mut i: usize = self.messages.len();
        proof {
            assert(before.skip(i as int) =~= Seq::<MessageView>::empty());
            assert(before.take(i as int) =~= before);
        }
        while i > 0
            invariant
                i <= before.len(),
                before.len() <= usize::MAX,
                well_formed(before),
                self@ == before.take(i as int) + kept(before.skip(i as int), keep),
                self@.len() <= before.len(),
                removed == before.len() - self@.len(),
                keep == |m: MessageView| !purged(m, account),
            decreases i,
        {
            i -= 1;
            let ghost tail = kept(before.skip(i + 1), keep);
            proof {
                assert(before.take(i + 1) =~= before.take(i as int).push(before[i as int]));
                assert(before.skip(i as int).drop_first() =~= before.skip(i + 1));
                assert(before.skip(i as int)[0] == before[i as int]);
                assert(self@[i as int] == before[i as int]);
            }
            let ghost previous = self@;
            let goes = match account {
                Some(id) => self.messages[i].account == id,
                None => true,
            };
            if goes {
                self.messages.remove(i);
                proof {
                    assert(self@ =~= previous.remove(i as int));
                    assert(previous.remove(i as int) =~= before.take(i as int) + tail);
                }
                removed += 1;
            } else {
                proof {
                    assert(self@ =~= before.take(i as int) + (seq![before[i as int]] + tail));
                }
            }
        }
        proof {
            assert(before.skip(0) =~= before);
            assert(before.take(0) =~= Seq::<MessageView>::empty());
            assert(self@ =~= kept(before, keep));
            lemma_kept_well_formed(before, keep);
        }
        removed
    }
}

/// Among what is kept of a well-formed queue, identifiers stay distinct.
pub proof fn lemma_kept_well_formed(queue: Seq<MessageView>, keep: spec_fn(MessageView) -> bool)
    requires
        well_formed(queue),
    ensures
        well_formed(kept(queue, keep)),
    decreases queue.len(),
{
    if queue.len() > 0 {
        let rest = queue.drop_first();
        assert(well_formed(rest)) by {
            assert forall|i: int, j: int| 0 <= i < j < rest.len() implies (#[trigger] rest[i]).id
                != (#[trigger] rest[j]).id by {
                assert(rest[i] == queue[i + 1] && rest[j] == queue[j + 1]);
            }
            assert forall|i: int| 0 <= i < rest.len() implies (
            #[trigger] rest[i]).recipients.len() <= u32::MAX by {
                assert(rest[i] == queue[i + 1]);
            }
        }
        lemma_kept_well_formed(rest, keep);
        lemma_kept_members(rest, keep);
        let out = kept(queue, keep);
        let sub = kept(rest, keep);
        if keep(queue[0]) {
            assert forall|i: int, j: int| 0 <= i < j < out.len() implies (#[trigger] out[i]).id
                != (#[trigger] out[j]).id by {
                assert(out[j] == sub[j - 1]);
                if i == 0 {
                    let w = choose|w: int| 0 <= w < rest.len() && rest[w] == sub[j - 1];
                    assert(queue[w + 1] == rest[w]);
                    assert(queue[0].id != queue[w + 1].id);
                } else {
                    assert(out[i] == sub[i - 1]);
                }
            }
            assert forall|i: int| 0 <= i < out.len() implies (#[trigger] out[i]).recipients.len()
                <= u32::MAX by {
                if i > 0 {
                    assert(out[i] == sub[i - 1]);
                }
            }
        }
    }
}

/// After the purge of an account the queue holds nothing of it, so nothing
/// is left to deliver for it, whatever state its recipients were in; the
/// messages of other accounts are all there.
pub proof fn lemma_purged_account_is_empty(queue: Seq<MessageView>, account: u32)
    ensures
        ({
            let after = kept(queue, |m: MessageView| !purged(m, Some(account)));
            &&& forall|k: int| 0 <= k < after.len() ==> (#[trigger] after[k]).account != account
            &&& all_terminal_for(after, account)
            &&& forall|i: int|
                0 <= i < queue.len() && (#[trigger] queue[i]).account != account
                    ==> after.contains(queue[i])
        }),
{
    let keep = |m: MessageView| !purged(m, Some(account));
    lemma_kept_members(queue, keep);
    let after = kept(queue, keep);
    assert forall|k: int| 0 <= k < after.len() implies (#[trigger] after[k]).account
        != account by {
        assert(keep(after[k]));
    }
    assert forall|i: int| 0 <= i < queue.len() && (#[trigger] queue[i]).account
        != account implies after.contains(queue[i]) by {
        assert(keep(queue[i]));
    }
}

/// The order in which due recipients are tried: the one that has been due
/// longest first; among those due at the same time, by domain, so that the
/// recipients of one destination follow each other; then by message and by
/// place in the message.
pub open spec fn tried_before(a: CandidateView, b: CandidateView) -> bool {
    if a.due != b.due {
        a.due < b.due
    } else if name_key(a.domain) != name_key(b.domain) {
        bytes_before(name_key(a.domain), name_key(b.domain))
    } else if a.message_id != b.message_id {
        a.message_id < b.message_id
    } else {
        a.recipient < b.recipient
    }
}

/// Of two candidates one is tried before the other, unless they stand for
/// the same recipient of the same message.
pub proof fn lemma_tried_before_total(a: CandidateView, b: CandidateView)
    ensures
        tried_before(a, b) || tried_before(b, a) || (a.message_id == b.message_id && a.recipient
            == b.recipient),
        !(tried_before(a, b) && tried_before(b, a)),
{
    lemma_bytes_before_total(name_key(a.domain), name_key(b.domain));
}

/// The order of trial carries over.
pub proof fn lemma_tried_before_transitive(a: CandidateView, b: CandidateView, c: CandidateView)
    requires
        tried_before(a, b),
        tried_before(b, c),
    ensures
        tried_before(a, c),
{
    let x = name_key(a.domain);
    let y = name_key(b.domain);
    let z = name_key(c.domain);
    lemma_bytes_before_total(x, y);
    lemma_bytes_before_total(y, z);
    lemma_bytes_before_total(x, z);
    if a.due == b.due && b.due == c.due {
        if x != y && y != z {
            lemma_bytes_before_transitive(x, y, z);
        }
    }
}

/// Whether the first candidate is tried before the second.
pub fn is_tried_before(a: &Candidate, b: &Candidate) -> (r: bool)
    ensures
        r == tried_before(a@, b@),
{
    if a.due != b.due {
        a.due < b.due
    } else if !same_bytes(a.domain.as_str().as_bytes(), b.domain.as_str().as_bytes()) {
        stands_before(a.domain.as_str().as_bytes(), b.domain.as_str().as_bytes())
    } else if a.message_id != b.message_id {
        a.message_id < b.message_id
    } else {
        a.recipient < b.recipient
    }
}

/// Whether the recipient at place `j` of the message is due at `now`.
pub open spec fn is_due(m: MessageView, j: int, now: u64) -> bool {
    &&& 0 <= j < m.recipients.len()
    &&& m.recipients[j].due(m.created) matches Some(due) && due <= now
}

/// The candidate that stands for the recipient at place `j` of the message.
pub open spec fn candidate_of(m: MessageView, j: int) -> CandidateView {
    CandidateView {
        message_id: m.id,
        recipient: j as u32,
        domain: m.recipients[j].domain,
        due: match m.recipients[j].due(m.created) {
            Some(due) => due,
            None => 0,
        },
        retry_count: m.recipients[j].retry_count,
        created: m.created,
    }
}

/// Whether place `b` of message `a` comes before place `j` of message `i`.
pub open spec fn earlier_place(a: int, b: int, i: int, j: int) -> bool {
    a < i || (a == i && b < j)
}

/// Whether the candidate stands for a due recipient before place `j` of
/// message `i`.
pub open spec fn from_queue(
    queue: Seq<MessageView>,
    now: u64,
    i: int,
    j: int,
    c: CandidateView,
) -> bool {
    exists|a: int, b: int|
        0 <= a < queue.len() && earlier_place(a, b, i, j) && is_due(queue[a], b, now) && c
            == #[trigger] candidate_of(queue[a], b)
}

/// Whether `out` lists the recipients that are due before place `j` of
/// message `i`, each once, in the order of trial.
pub open spec fn lists_due_upto(
    queue: Seq<MessageView>,
    now: u64,
    i: int,
    j: int,
    out: Seq<CandidateView>,
) -> bool {
    &&& forall|k: int, l: int| 0 <= k < l < out.len() ==> tried_before(out[k], out[l])
    &&& forall|k: int| 0 <= k < out.len() ==> from_queue(queue, now, i, j, #[trigger] out[k])
    &&& forall|a: int, b: int|
        0 <= a < queue.len() && earlier_place(a, b, i, j) && is_due(queue[a], b, now)
            ==> out.contains(#[trigger] candidate_of(queue[a], b))
}

/// Whether `out` lists the recipients that are due at `now`: every one of
/// them, each once, in the order of trial.
pub open spec fn lists_due(queue: Seq<MessageView>, now: u64, out: Seq<CandidateView>) -> bool {
    lists_due_upto(queue, now, queue.len() as int, 0, out)
}

/// Two lists in the order of trial that hold the same candidates are the
/// same list.
proof fn lemma_order_of_trial_unique(a: Seq<CandidateView>, b: Seq<CandidateView>)
    requires
        forall|k: int, l: int| 0 <= k < l < a.len() ==> tried_before(a[k], a[l]),
        forall|k: int, l: int| 0 <= k < l < b.len() ==> tried_before(b[k], b[l]),
        forall|c: CandidateView| a.contains(c) <==> b.contains(c),
    ensures
        a == b,
    decreases a.len(),
{
    if a.len() == 0 {
        if b.len() > 0 {
            assert(b.contains(b[0]));
        }
        assert(a =~= b);
    } else {
        assert(a.contains(a[0]));
        let k = choose|k: int| 0 <= k < b.len() && b[k] == a[0];
        assert(b.contains(b[0]));
        let m = choose|m: int| 0 <= m < a.len() && a[m] == b[0];
        lemma_tried_before_total(a[0], b[0]);
        if k > 0 && m > 0 {
            assert(tried_before(b[0], b[k]));
            assert(tried_before(a[0], a[m]));
        }
        assert(a[0] == b[0]);
        let x = a.drop_first();
        let y = b.drop_first();
        assert forall|c: CandidateView| x.contains(c) <==> y.contains(c) by {
            lemma_tried_before_total(a[0], c);
            if x.contains(c) {
                let i = choose|i: int| 0 <= i < x.len() && x[i] == c;
                assert(a[i + 1] == c);
                assert(tried_before(a[0], a[i + 1]));
                assert(a.contains(c));
                let j = choose|j: int| 0 <= j < b.len() && b[j] == c;
                assert(j > 0);
                assert(y[j - 1] == c);
            }
            if y.contains(c) {
                let j = choose|j: int| 0 <= j < y.len() && y[j] == c;
                assert(b[j + 1] == c);
                assert(tried_before(b[0], b[j + 1]));
                assert(b.contains(c));
                let i = choose|i: int| 0 <= i < a.len() && a[i] == c;
                assert(i > 0);
                assert(x[i - 1] == c);
            }
        }
        assert forall|k: int, l: int| 0 <= k < l < x.len() implies tried_before(x[k], x[l]) by {
            assert(tried_before(a[k + 1], a[l + 1]));
        }
        assert forall|k: int, l: int| 0 <= k < l < y.len() implies tried_before(y[k], y[l]) by {
            assert(tried_before(b[k + 1], b[l + 1]));
        }
        lemma_order_of_trial_unique(x, y);
        assert(a =~= seq![a[0]] + x);
        assert(b =~= seq![b[0]] + y);
    }
}

/// What is due at a time, and in which order it is tried, is settled by the
/// queue alone: two lists of what is due are the same list.
pub proof fn lemma_lists_due_unique(
    queue: Seq<MessageView>,
    now: u64,
    a: Seq<CandidateView>,
    b: Seq<CandidateView>,
)
    requires
        lists_due(queue, now, a),
        lists_due(queue, now, b),
    ensures
        a == b,
{
    let n = queue.len() as int;
    assert forall|c: CandidateView| a.contains(c) <==> b.contains(c) by {
        if a.contains(c) {
            let k = choose|k: int| 0 <= k < a.len() && a[k] == c;
            assert(from_queue(queue, now, n, 0, a[k]));
        }
        if b.contains(c) {
            let k = choose|k: int| 0 <= k < b.len() && b[k] == c;
            assert(from_queue(queue, now, n, 0, b[k]));
        }
    }
    lemma_order_of_trial_unique(a, b);
}

/// Whether a recipient waits for the time `due` that lies after `now`.
pub open spec fn waits(queue: Seq<MessageView>, a: int, b: int, now: u64, due: u64) -> bool {
    &&& 0 <= a < queue.len()
    &&& 0 <= b < queue[a].recipients.len()
    &&& queue[a].recipients[b].due(queue[a].created) == Some(due)
    &&& due > now
}

/// Whether `at` is the earliest time after `now` at which a recipient before
/// place `j` of message `i` becomes due; `None` says that none waits.
pub open spec fn next_due_upto(
    queue: Seq<MessageView>,
    now: u64,
    i: int,
    j: int,
    at: Option<u64>,
) -> bool {
    match at {
        None => forall|a: int, b: int, due: u64|
            earlier_place(a, b, i, j) ==> !#[trigger] waits(queue, a, b, now, due),
        Some(t) => (exists|a: int, b: int|
            earlier_place(a, b, i, j) && #[trigger] waits(queue, a, b, now, t)) && forall|
            a: int,
            b: int,
            due: u64,
        |
            earlier_place(a, b, i, j) && #[trigger] waits(queue, a, b, now, due) ==> t <= due,
    }
}

/// Puts a candidate in its place in a list that is in the order of trial.
fn insert_in_order(out: &mut Vec<Candidate>, candidate: Candidate) -> (at: Ghost<int>)
    requires
        forall|k: int, l: int|
            0 <= k < l < old(out)@.len() ==> tried_before(old(out)@[k]@, old(out)@[l]@),
        forall|k: int|
            0 <= k < old(out)@.len() ==> !((#[trigger] old(out)@[k]).message_id
                == candidate.message_id && old(out)@[k].recipient == candidate.recipient),
    ensures
        0 <= at@ <= old(out)@.len(),
        candidate_views(final(out)@) == candidate_views(old(out)@).insert(at@, candidate@),
        forall|k: int, l: int|
            0 <= k < l < final(out)@.len() ==> tried_before(final(out)@[k]@, final(out)@[l]@),
{
    let mut at: usize = 0;
    while at < out.len() && is_tried_before(&out[at], &candidate)
        invariant
            at <= out@.len(),
            forall|k: int| 0 <= k < at ==> tried_before(out@[k]@, candidate@),
        decreases out@.len() - at,
    {
        at += 1;
    }
    let ghost before = out@;
    let ghost view = candidate@;
    out.insert(at, candidate);
    proof {
        assert(candidate_views(out@) =~= candidate_views(before).insert(at as int, view));
        assert forall|k: int, l: int| 0 <= k < l < out@.len() implies tried_before(
            out@[k]@,
            out@[l]@,
        ) by {
            let k0 = if k < at { k } else { k - 1 };
            let l0 = if l < at { l } else { l - 1 };
            if k != at {
                assert(out@[k] == before[k0]);
            }
            if l != at {
                assert(out@[l] == before[l0]);
            }
            if k == at {
                // The candidate goes before what the search stopped at, and
                // so before all that follows.
                let stop = before[at as int]@;
                lemma_tried_before_total(stop, view);
                assert(tried_before(view, stop));
                if l0 > at {
                    assert(tried_before(before[at as int]@, before[l0]@));
                    lemma_tried_before_transitive(view, stop, before[l0]@);
                }
            }
        }
    }
    Ghost(at as int)
}

/// A list with one more candidate holds what it held, and the candidate.
proof fn lemma_insert_contains(out: Seq<CandidateView>, at: int, c: CandidateView)
    requires
        0 <= at <= out.len(),
    ensures
        out.insert(at, c).contains(c),
        forall|x: CandidateView| out.contains(x) ==> out.insert(at, c).contains(x),
        forall|k: int|
            0 <= k < out.insert(at, c).len() ==> (#[trigger] out.insert(at, c)[k]) == c
                || out.contains(out.insert(at, c)[k]),
{
    let grown = out.insert(at, c);
    assert(grown[at] == c);
    assert forall|x: CandidateView| out.contains(x) implies grown.contains(x) by {
        let k = choose|k: int| 0 <= k < out.len() && out[k] == x;
        if k < at {
            assert(grown[k] == x);
        } else {
            assert(grown[k + 1] == x);
        }
    }
    assert forall|k: int| 0 <= k < grown.len() implies (#[trigger] grown[k]) == c || out.contains(
        grown[k],
    ) by {
        if k < at {
            assert(out[k] == grown[k]);
        } else if k > at {
            assert(out[k - 1] == grown[k]);
        }
    }
}

impl Queue {
    /// The recipients that are due at `now`, in the order to try them.
    pub fn due(&self, now: u64) -> (r: Vec<Candidate>)
        requires
            self.wf(),
        ensures
            lists_due(self@, now, candidate_views(r@)),
    {
        let ghost queue = self@;
        let mut out: Vec<Candidate> = Vec::new();
        let mut i: usize = 0;
        while i < self.messages.len()
            invariant
                i <= self.messages.len(),
                queue == self@,
                well_formed(queue),
                lists_due_upto(queue, now, i as int, 0, candidate_views(out@)),
            decreases self.messages.len() - i,
        {
            let message = &self.messages[i];
            let ghost m = queue[i as int];
            assert(m == message@);
            let mut j: usize = 0;
            while j < message.recipients.len()
                invariant
                    j <= message.recipients@.len(),
                    i < queue.len(),
                    m == queue[i as int],
                    m == message@,
                    well_formed(queue),
                    lists_due_upto(queue, now, i as int, j as int, candidate_views(out@)),
                decreases message.recipients@.len() - j,
            {
                let entry = &message.recipients[j];
                assert(m.recipients[j as int] == entry@);
                assert(m.recipients.len() <= u32::MAX);
                let ghost listed = candidate_views(out@);
                let mut added: bool = false;
                match entry.due(message.created) {
                    Some(due) => {
                        if due <= now {
                            let candidate = Candidate {
                                message_id: message.id,
                                recipient: j as u32,
                                domain: entry.domain.clone(),
                                due,
                                retry_count: entry.retry_count,
                                created: message.created,
                            };
                            assert(candidate@ == candidate_of(m, j as int));
                            proof {
                                assert forall|k: int| 0 <= k < out@.len() implies !((
                                #[trigger] out@[k]).message_id == candidate.message_id
                                    && out@[k].recipient == candidate.recipient) by {
                                    assert(from_queue(queue, now, i as int, j as int, listed[k]));
                                    let (a, b) = choose|a: int, b: int|
                                        0 <= a < queue.len() && earlier_place(
                                            a,
                                            b,
                                            i as int,
                                            j as int,
                                        ) && is_due(queue[a], b, now) && listed[k]
                                            == #[trigger] candidate_of(queue[a], b);
                                    if a < i {
                                        assert(queue[a].id != queue[i as int].id);
                                    }
                                }
                                assert forall|k: int, l: int|
                                    0 <= k < l < out@.len() implies tried_before(
                                    out@[k]@,
                                    out@[l]@,
                                ) by {
                                    assert(tried_before(listed[k], listed[l]));
                                }
                            }
                            let at = insert_in_order(&mut out, candidate);
                            proof {
                                lemma_insert_contains(listed, at@, candidate_of(m, j as int));
                            }
                            added = true;
                        }
                    },
                    None => {},
                }
                proof {
                    let grown = candidate_views(out@);
                    let c = candidate_of(m, j as int);
                    assert(added == is_due(m, j as int, now));
                    assert(!added ==> grown == listed);
                    assert forall|k: int, l: int| 0 <= k < l < grown.len() implies tried_before(
                        grown[k],
                        grown[l],
                    ) by {
                        if added {
                            assert(tried_before(out@[k]@, out@[l]@));
                        }
                    }
                    assert forall|k: int| 0 <= k < grown.len() implies from_queue(
                        queue,
                        now,
                        i as int,
                        j + 1,
                        #[trigger] grown[k],
                    ) by {
                        if added && grown[k] == c {
                            assert(earlier_place(i as int, j as int, i as int, j + 1));
                            assert(grown[k] == candidate_of(queue[i as int], j as int));
                        } else {
                            let w = choose|w: int| 0 <= w < listed.len() && listed[w] == grown[k];
                            assert(from_queue(queue, now, i as int, j as int, listed[w]));
                            let (a, b) = choose|a: int, b: int|
                                0 <= a < queue.len() && earlier_place(a, b, i as int, j as int)
                                    && is_due(queue[a], b, now) && listed[w]
                                    == #[trigger] candidate_of(queue[a], b);
                            assert(earlier_place(a, b, i as int, j + 1));
                        }
                    }
                    assert forall|a: int, b: int|
                        0 <= a < queue.len() && earlier_place(a, b, i as int, j + 1) && is_due(
                            queue[a],
                            b,
                            now,
                        ) implies grown.contains(#[trigger] candidate_of(queue[a], b)) by {
                        if a == i && b == j {
                        } else {
                            assert(earlier_place(a, b, i as int, j as int));
                            assert(listed.contains(candidate_of(queue[a], b)));
                        }
                    }
                }
                j += 1;
            }
            proof {
                let listed = candidate_views(out@);
                assert forall|k: int| 0 <= k < listed.len() implies from_queue(
                    queue,
                    now,
                    i + 1,
                    0,
                    #[trigger] listed[k],
                ) by {
                    assert(from_queue(queue, now, i as int, j as int, listed[k]));
                    let (a, b) = choose|a: int, b: int|
                        0 <= a < queue.len() && earlier_place(a, b, i as int, j as int) && is_due(
                            queue[a],
                            b,
                            now,
                        ) && listed[k] == #[trigger] candidate_of(queue[a], b);
                    assert(earlier_place(a, b, i + 1, 0));
                }
                assert forall|a: int, b: int|
                    0 <= a < queue.len() && earlier_place(a, b, i + 1, 0) && is_due(
                        queue[a],
                        b,
                        now,
                    ) implies listed.contains(#[trigger] candidate_of(queue[a], b)) by {
                    assert(earlier_place(a, b, i as int, j as int));
                }
            }
            i += 1;
        }
        out
    }

    /// The earliest time after `now` at which a recipient becomes due; none
    /// where no recipient waits for a later time.
    pub fn next_due(&self, now: u64) -> (r: Option<u64>)
        ensures
            next_due_upto(self@, now, self@.len() as int, 0, r),
    {
        let ghost queue = self@;
        let mut best: Option<u64> = None;
        let mut i: usize = 0;
        while i < self.messages.len()
            invariant
                i <= self.messages.len(),
                queue == self@,
                next_due_upto(queue, now, i as int, 0, best),
            decreases self.messages.len() - i,
        {
            let message = &self.messages[i];
            let ghost m = queue[i as int];
            assert(m == message@);
            let mut j: usize = 0;
            while j < message.recipients.len()
                invariant
                    j <= message.recipients@.len(),
                    i < queue.len(),
                    m == queue[i as int],
                    m == message@,
                    next_due_upto(queue, now, i as int, j as int, best),
                decreases message.recipients@.len() - j,
            {
                let entry = &message.recipients[j];
                assert(m.recipients[j as int] == entry@);
                let ghost previous = best;
                match entry.due(message.created) {
                    Some(due) => {
                        if due > now {
                            best = match best {
                                Some(t) => if t <= due {
                                    Some(t)
                                } else {
                                    Some(due)
                                },
                                None => Some(due),
                            };
                        }
                    },
                    None => {},
                }
                proof {
                    let here = m.recipients[j as int].due(m.created);
                    assert forall|a: int, b: int, due: u64|
                        earlier_place(a, b, i as int, j + 1) && #[trigger] waits(
                            queue,
                            a,
                            b,
                            now,
                            due,
                        ) implies (best matches Some(t) && t <= due) by {
                        if a == i && b == j {
                            assert(here == Some(due));
                        } else {
                            assert(earlier_place(a, b, i as int, j as int));
                        }
                    }
                    if best is Some {
                        let t = best->0;
                        if here == Some(t) && t > now {
                            assert(earlier_place(i as int, j as int, i as int, j + 1));
                            assert(waits(queue, i as int, j as int, now, t));
                        } else {
                            assert(previous == best);
                            let (a, b) = choose|a: int, b: int|
                                earlier_place(a, b, i as int, j as int) && #[trigger] waits(
                                    queue,
                                    a,
                                    b,
                                    now,
                                    t,
                                );
                            assert(earlier_place(a, b, i as int, j + 1));
                        }
                    }
                }
                j += 1;
            }
            proof {
                assert forall|a: int, b: int, due: u64|
                    earlier_place(a, b, i + 1, 0) && #[trigger] waits(
                        queue,
                        a,
                        b,
                        now,
                        due,
                    ) implies (best matches Some(t) && t <= due) by {
                    assert(earlier_place(a, b, i as int, j as int));
                }
                if best is Some {
                    let t = best->0;
                    let (a, b) = choose|a: int, b: int|
                        earlier_place(a, b, i as int, j as int) && #[trigger] waits(
                            queue,
                            a,
                            b,
                            now,
                            t,
                        );
                    assert(earlier_place(a, b, i + 1, 0));
                }
            }
            i += 1;
        }
        best
    }
}

} // verus!
