use outbound_queue::entry::{Message, RecipientEntry, Status};
use outbound_queue::manager::Candidate;
use outbound_queue::queue::{is_tried_before, Queue};
use outbound_queue::scheduler::Decision;
use outbound_queue::text::{contains_name, same_text, stands_before};

fn message(id: u64, account: u32, created: u64, recipients: &[&str]) -> Message {
    Message {
        id,
        account,
        sender: "john@test.org".to_string(),
        recipients: recipients
            .iter()
            .map(|address| {
                let domain = address.split('@').nth(1).unwrap();
                RecipientEntry::new(address.to_string(), domain.to_string())
            })
            .collect(),
        content: vec![id as u8],
        created,
    }
}

fn candidate(message_id: u64, recipient: u32, domain: &str, due: u64, created: u64) -> Candidate {
    Candidate { message_id, recipient, domain: domain.to_string(), due, retry_count: 0, created }
}

#[test]
fn a_message_is_appended_once() {
    let mut queue = Queue::new();
    assert!(queue.is_empty());
    assert!(queue.append(message(1, 5, 100, &["a@one.org"])));
    assert!(!queue.append(message(1, 6, 200, &["b@two.org"])));
    assert!(queue.append(message(2, 5, 100, &["b@two.org"])));
    assert_eq!(queue.messages.len(), 2);
    assert_eq!(queue.messages[0].account, 5);
    assert_eq!(queue.find(1), Some(0));
    assert_eq!(queue.find(2), Some(1));
    assert_eq!(queue.find(3), None);
    assert!(!queue.is_empty());
}

#[test]
fn a_message_is_deleted_by_identifier() {
    let mut queue = Queue::new();
    queue.append(message(1, 5, 100, &["a@one.org"]));
    queue.append(message(2, 5, 100, &["b@two.org"]));
    queue.append(message(3, 5, 100, &["c@three.org"]));
    assert!(queue.delete(2));
    assert!(!queue.delete(2));
    assert_eq!(queue.find(1), Some(0));
    assert_eq!(queue.find(3), Some(1));
    assert!(queue.append(message(2, 5, 100, &["b@two.org"])));
}

#[test]
fn due_recipients_are_listed_in_the_order_of_trial() {
    let mut queue = Queue::new();
    queue.append(message(3, 5, 200, &["x@zeta.org", "y@alpha.org"]));
    queue.append(message(1, 5, 100, &["a@beta.org"]));
    queue.append(message(2, 5, 200, &["b@alpha.org", "c@alpha.org"]));
    queue.append(message(4, 5, 900, &["late@alpha.org"]));
    assert_eq!(
        queue.due(500),
        vec![
            candidate(1, 0, "beta.org", 100, 100),
            candidate(2, 0, "alpha.org", 200, 200),
            candidate(2, 1, "alpha.org", 200, 200),
            candidate(3, 1, "alpha.org", 200, 200),
            candidate(3, 0, "zeta.org", 200, 200),
        ]
    );
    assert_eq!(queue.due(99), vec![]);
    assert_eq!(queue.due(100), vec![candidate(1, 0, "beta.org", 100, 100)]);
    assert_eq!(queue.next_due(500), Some(900));
    assert_eq!(queue.next_due(99), Some(100));
    assert_eq!(queue.next_due(100), Some(200));
    assert_eq!(queue.next_due(900), None);
}

#[test]
fn the_order_of_trial_is_by_due_time_domain_message_and_place() {
    let a = candidate(1, 0, "b.org", 100, 0);
    assert!(is_tried_before(&a, &candidate(0, 0, "a.org", 101, 0)));
    assert!(!is_tried_before(&candidate(0, 0, "a.org", 101, 0), &a));
    assert!(is_tried_before(&candidate(9, 9, "a.org", 100, 0), &a));
    assert!(is_tried_before(&candidate(9, 9, "b", 100, 0), &a));
    assert!(is_tried_before(&a, &candidate(0, 0, "b.org.uk", 100, 0)));
    assert!(is_tried_before(&candidate(0, 9, "b.org", 100, 0), &a));
    assert!(is_tried_before(&a, &candidate(1, 1, "b.org", 100, 0)));
    assert!(!is_tried_before(&a, &a));
    assert!(stands_before(b"", b"a"));
    assert!(!stands_before(b"", b""));
    assert!(stands_before(b"abc", b"abd"));
    assert!(stands_before(b"ab", b"abc"));
    assert!(!stands_before(b"abc", b"ab"));
    assert!(stands_before(b"Z", b"a"));
    assert!(stands_before(&[1, 255], &[2]));
}

#[test]
fn marking_puts_a_due_recipient_in_flight() {
    let mut queue = Queue::new();
    queue.append(message(1, 5, 100, &["a@one.org", "b@two.org"]));
    assert!(!queue.mark_in_flight(1, 1, 99));
    assert!(queue.mark_in_flight(1, 1, 150));
    assert_eq!(queue.messages[0].recipients[1].status, Status::InFlight);
    assert_eq!(queue.messages[0].recipients[1].last_attempt, Some(150));
    assert_eq!(queue.messages[0].recipients[1].address, "b@two.org");
    assert_eq!(queue.messages[0].recipients[0].status, Status::Pending);
    assert!(!queue.mark_in_flight(1, 2, 150));
    assert!(!queue.mark_in_flight(2, 0, 150));
    assert!(!queue.mark_in_flight(1, u32::MAX, 150));
    // A recipient in flight can be claimed again, by whoever gets its lock.
    assert!(queue.mark_in_flight(1, 1, 200));
    assert_eq!(queue.messages[0].recipients[1].last_attempt, Some(200));
    assert_eq!(
        queue.due(200),
        vec![
            Candidate {
                message_id: 1,
                recipient: 0,
                domain: "one.org".to_string(),
                due: 100,
                retry_count: 0,
                created: 100
            },
            Candidate {
                message_id: 1,
                recipient: 1,
                domain: "two.org".to_string(),
                due: 200,
                retry_count: 0,
                created: 100
            },
        ]
    );
}

#[test]
fn a_decision_is_persisted_for_a_recipient_in_flight() {
    let mut queue = Queue::new();
    queue.append(message(1, 5, 100, &["a@one.org", "b@two.org"]));
    assert!(!queue.persist(1, 0, Decision::Delivered));
    queue.mark_in_flight(1, 0, 150);
    assert!(queue.persist(1, 0, Decision::RetryAt { due: 210, retry_count: 1 }));
    assert_eq!(
        queue.messages[0].recipients[0].status,
        Status::TemporaryFailure { retry_count: 1, next_due: 210 }
    );
    assert_eq!(queue.messages[0].recipients[0].retry_count, 1);
    assert_eq!(queue.messages[0].recipients[0].last_attempt, Some(150));
    assert!(!queue.persist(1, 0, Decision::Delivered));
    assert!(!queue.mark_in_flight(1, 0, 209));
    assert!(queue.mark_in_flight(1, 0, 210));
    assert!(queue.persist(1, 0, Decision::Delivered));
    assert_eq!(queue.messages[0].recipients[0].status, Status::Delivered);
    assert!(!queue.mark_in_flight(1, 0, 1_000));
    assert!(!queue.persist(2, 0, Decision::Delivered));
    assert!(!queue.persist(1, 7, Decision::Delivered));
    assert_eq!(queue.due(1_000).len(), 1);
    assert_eq!(queue.due(1_000)[0].retry_count, 0);
    assert_eq!(queue.due(1_000)[0].recipient, 1);
}

#[test]
fn the_queue_is_empty_when_every_recipient_is_terminal() {
    let mut queue = Queue::new();
    queue.append(message(1, 5, 100, &["a@one.org", "b@two.org"]));
    queue.append(message(2, 6, 100, &["c@three.org"]));
    assert!(!queue.is_empty());
    queue.mark_in_flight(1, 0, 100);
    queue.persist(1, 0, Decision::Delivered);
    queue.mark_in_flight(1, 1, 100);
    queue.persist(1, 1, Decision::DeadLetter);
    assert!(!queue.is_empty());
    assert!(queue.is_empty_for(5));
    assert!(!queue.is_empty_for(6));
    assert!(queue.is_empty_for(7));
    queue.mark_in_flight(2, 0, 100);
    assert!(!queue.is_empty());
    queue.persist(2, 0, Decision::PermanentFailure { reason: "550".to_string() });
    assert!(queue.is_empty());
    assert!(queue.is_empty_for(6));
    // Nothing was dropped silently: the states can still be read.
    assert_eq!(queue.messages[0].recipients[1].status, Status::DeadLettered);
    assert_eq!(queue.messages.len(), 2);
}

#[test]
fn a_purge_takes_the_messages_of_an_account() {
    let mut queue = Queue::new();
    queue.append(message(1, 5, 100, &["a@one.org"]));
    queue.append(message(2, 6, 100, &["b@two.org"]));
    queue.append(message(3, 5, 100, &["c@three.org"]));
    queue.append(message(4, 7, 100, &["d@four.org"]));
    queue.mark_in_flight(3, 0, 100);
    assert_eq!(queue.purge_account(Some(5)), 2);
    assert_eq!(queue.messages.iter().map(|m| m.id).collect::<Vec<u64>>(), vec![2, 4]);
    assert!(queue.is_empty_for(5));
    assert_eq!(queue.purge_account(Some(5)), 0);
    assert_eq!(queue.purge_account(None), 2);
    assert!(queue.is_empty());
    assert_eq!(queue.messages.len(), 0);
}

#[test]
fn texts_are_compared_by_content() {
    assert!(same_text("", ""));
    assert!(same_text("blob", "blob"));
    assert!(!same_text("blob", "blobs"));
    assert!(!same_text("Blob", "blob"));
    let list = vec!["a".to_string(), "bc".to_string()];
    assert!(contains_name(&list, "bc"));
    assert!(!contains_name(&list, "b"));
    assert!(!contains_name(&Vec::new(), ""));
}

#[test]
fn finished_messages_are_taken_out_for_the_archive() {
    let mut queue = Queue::new();
    queue.append(message(1, 5, 100, &["a@one.org"]));
    queue.append(message(2, 5, 100, &["b@two.org", "c@three.org"]));
    queue.append(message(3, 5, 100, &["d@four.org"]));
    queue.append(message(4, 5, 100, &[]));
    assert_eq!(queue.take_finished().iter().map(|m| m.id).collect::<Vec<u64>>(), vec![4]);
    for (id, recipient, decision) in [
        (1u64, 0u32, Decision::Delivered),
        (2, 0, Decision::Delivered),
        (3, 0, Decision::DeadLetter),
    ] {
        assert!(queue.mark_in_flight(id, recipient, 100));
        assert!(queue.persist(id, recipient, decision));
    }
    let finished = queue.take_finished();
    assert_eq!(finished.iter().map(|m| m.id).collect::<Vec<u64>>(), vec![1, 3]);
    assert_eq!(finished[1].recipients[0].status, Status::DeadLettered);
    assert_eq!(finished[0].content, vec![1]);
    // The message with a recipient that still waits stays, content and all.
    assert_eq!(queue.messages.len(), 1);
    assert_eq!(queue.messages[0].id, 2);
    assert_eq!(queue.messages[0].recipients[0].status, Status::Delivered);
    assert_eq!(queue.messages[0].recipients[1].status, Status::Pending);
    assert!(queue.take_finished().is_empty());
    assert!(!queue.is_empty());
}
