use outbound_queue::entry::{Message, RecipientEntry, Status};
use outbound_queue::scheduler::Decision;

fn recipient(address: &str, domain: &str) -> RecipientEntry {
    RecipientEntry::new(address.to_string(), domain.to_string())
}

fn message(recipients: Vec<RecipientEntry>) -> Message {
    Message {
        id: 1,
        account: 5,
        sender: "john@test.org".to_string(),
        recipients,
        content: vec![0xaa, 0xbb],
        created: 1_000,
    }
}

#[test]
fn a_new_recipient_is_pending_and_due_at_once() {
    let r = recipient("bill@foobar.org", "foobar.org");
    assert_eq!(r.status, Status::Pending);
    assert_eq!(r.last_attempt, None);
    assert_eq!(r.retry_count, 0);
    assert_eq!(r.address, "bill@foobar.org");
    assert_eq!(r.domain, "foobar.org");
    assert_eq!(r.due(1_000), Some(1_000));
    assert!(!r.status.is_terminal());
}

#[test]
fn an_attempt_puts_the_recipient_in_flight() {
    let mut r = recipient("bill@foobar.org", "foobar.org");
    assert!(r.begin_attempt(1_200));
    assert_eq!(r.status, Status::InFlight);
    assert_eq!(r.last_attempt, Some(1_200));
    assert_eq!(r.retry_count, 0);
    // It stays due, from the beginning of the attempt, for whoever gets its lock next.
    assert_eq!(r.due(1_000), Some(1_200));
}

#[test]
fn delivery_is_terminal() {
    let mut r = recipient("bill@foobar.org", "foobar.org");
    r.begin_attempt(1_200);
    assert!(r.complete(Decision::Delivered));
    assert_eq!(r.status, Status::Delivered);
    assert!(r.status.is_terminal());
    assert_eq!(r.due(1_000), None);
    assert!(!r.begin_attempt(1_300));
    assert_eq!(r.status, Status::Delivered);
    assert_eq!(r.last_attempt, Some(1_200));
}

#[test]
fn a_retry_records_count_and_due_time() {
    let mut r = recipient("bill@foobar.org", "foobar.org");
    r.begin_attempt(1_200);
    assert!(r.complete(Decision::RetryAt { due: 1_260, retry_count: 1 }));
    assert_eq!(r.status, Status::TemporaryFailure { retry_count: 1, next_due: 1_260 });
    assert_eq!(r.retry_count, 1);
    assert_eq!(r.due(1_000), Some(1_260));
    assert!(!r.status.is_terminal());
    assert!(r.begin_attempt(1_260));
    assert_eq!(r.status, Status::InFlight);
    assert_eq!(r.retry_count, 1);
}

#[test]
fn a_permanent_failure_keeps_its_reason() {
    let mut r = recipient("bill@foobar.org", "foobar.org");
    r.begin_attempt(1_200);
    assert!(r.complete(Decision::PermanentFailure { reason: "550 no".to_string() }));
    assert_eq!(r.status, Status::PermanentFailure { reason: "550 no".to_string() });
    assert!(r.status.is_terminal());
    assert_eq!(r.due(1_000), None);
}

#[test]
fn a_dead_letter_is_terminal() {
    let mut r = recipient("bill@foobar.org", "foobar.org");
    r.begin_attempt(1_200);
    assert!(r.complete(Decision::DeadLetter));
    assert_eq!(r.status, Status::DeadLettered);
    assert!(r.status.is_terminal());
}

#[test]
fn a_decision_takes_effect_once() {
    let mut r = recipient("bill@foobar.org", "foobar.org");
    assert!(!r.complete(Decision::Delivered));
    assert_eq!(r.status, Status::Pending);
    r.begin_attempt(1_200);
    assert!(r.complete(Decision::RetryAt { due: 1_260, retry_count: 1 }));
    assert!(!r.complete(Decision::RetryAt { due: 1_260, retry_count: 1 }));
    assert!(!r.complete(Decision::Delivered));
    assert_eq!(r.status, Status::TemporaryFailure { retry_count: 1, next_due: 1_260 });
}

#[test]
fn recipients_of_one_message_go_their_own_ways() {
    let mut m = message(vec![
        recipient("a@one.org", "one.org"),
        recipient("b@two.org", "two.org"),
        recipient("c@three.org", "three.org"),
    ]);
    m.recipients[0].begin_attempt(1_100);
    m.recipients[0].complete(Decision::Delivered);
    m.recipients[1].begin_attempt(1_100);
    m.recipients[1].complete(Decision::RetryAt { due: 1_500, retry_count: 1 });
    assert_eq!(m.recipients[0].status, Status::Delivered);
    assert_eq!(m.recipients[1].status, Status::TemporaryFailure { retry_count: 1, next_due: 1_500 });
    assert_eq!(m.recipients[2].status, Status::Pending);
    assert!(!m.is_terminal());
    assert!(!m.content_releasable());
    assert_eq!(m.next_due(), Some(1_000));
}

#[test]
fn the_content_stays_until_the_last_recipient_is_terminal() {
    let mut m = message(vec![recipient("a@one.org", "one.org"), recipient("b@two.org", "two.org")]);
    assert!(!m.content_releasable());
    m.recipients[0].begin_attempt(1_100);
    m.recipients[0].complete(Decision::Delivered);
    assert!(!m.content_releasable());
    m.recipients[1].begin_attempt(1_100);
    assert!(!m.content_releasable());
    m.recipients[1].complete(Decision::DeadLetter);
    assert!(m.content_releasable());
    assert!(m.is_terminal());
    assert_eq!(m.next_due(), None);
}

#[test]
fn the_next_due_time_is_the_earliest() {
    let mut m = message(vec![
        recipient("a@one.org", "one.org"),
        recipient("b@two.org", "two.org"),
        recipient("c@three.org", "three.org"),
    ]);
    for (i, due) in [(0usize, 4_000u64), (1, 2_000), (2, 3_000)] {
        m.recipients[i].begin_attempt(1_100);
        m.recipients[i].complete(Decision::RetryAt { due, retry_count: 1 });
    }
    assert_eq!(m.next_due(), Some(2_000));
    m.recipients[1].begin_attempt(2_000);
    m.recipients[1].complete(Decision::Delivered);
    assert_eq!(m.next_due(), Some(3_000));
}

#[test]
fn a_message_without_recipients_is_terminal() {
    let m = message(vec![]);
    assert!(m.is_terminal());
    assert_eq!(m.next_due(), None);
}
