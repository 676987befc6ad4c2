use outbound_queue::entry::{Message, RecipientEntry};
use outbound_queue::housekeeper::{purge, purge_account};
use outbound_queue::lock::{domain_key, recipient_key, LockStore};
use outbound_queue::manage::{HousekeeperEvent, PurgeType, StoreRef};
use outbound_queue::queue::Queue;

fn message(id: u64, account: u32, recipients: usize) -> Message {
    Message {
        id,
        account,
        sender: "john@test.org".to_string(),
        recipients: (0..recipients)
            .map(|i| RecipientEntry::new(format!("r{}@foobar.org", i), "foobar.org".to_string()))
            .collect(),
        content: vec![],
        created: 100,
    }
}

/// Three messages of two accounts; one recipient of each message is in
/// flight under a worker's lock.
fn state() -> (Queue, LockStore) {
    let mut queue = Queue::new();
    let mut locks = LockStore::new();
    queue.append(message(1, 5, 2));
    queue.append(message(2, 6, 1));
    queue.append(message(3, 5, 1));
    for (id, recipient, worker) in [(1u64, 1u32, 11u64), (2, 0, 12), (3, 0, 13)] {
        assert!(locks.acquire(&recipient_key(id, recipient), worker, 100, 60));
        assert!(queue.mark_in_flight(id, recipient, 100));
    }
    assert!(locks.atomic_increment(&domain_key(b"foobar.org"), 11, 10, 100, 60));
    (queue, locks)
}

#[test]
fn a_purged_account_leaves_nothing_to_deliver() {
    let (mut queue, mut locks) = state();
    assert!(!queue.is_empty_for(5));
    purge_account(&mut queue, &mut locks, Some(5));
    assert!(queue.is_empty_for(5));
    assert_eq!(queue.find(1), None);
    assert_eq!(queue.find(3), None);
    assert_eq!(queue.find(2), Some(0));
    assert!(!queue.is_empty_for(6));
    // The locks on the purged recipients are gone although they were held.
    assert!(!locks.is_held(&recipient_key(1, 1), 101));
    assert!(!locks.is_held(&recipient_key(3, 0), 101));
    assert_eq!(locks.holder(&recipient_key(2, 0), 101), Some(12));
    assert_eq!(locks.counter(&domain_key(b"foobar.org"), 101), 1);
    // The worker that held the lock finds no recipient to persist to.
    assert!(!queue.persist(1, 1, outbound_queue::scheduler::Decision::Delivered));
}

#[test]
fn a_purge_without_account_takes_every_message() {
    let (mut queue, mut locks) = state();
    purge_account(&mut queue, &mut locks, None);
    assert!(queue.is_empty());
    assert_eq!(queue.messages.len(), 0);
    for (id, recipient) in [(1u64, 1u32), (2, 0), (3, 0)] {
        assert!(!locks.is_held(&recipient_key(id, recipient), 101));
    }
}

#[test]
fn an_account_purge_event_is_carried_out() {
    let (mut queue, mut locks) = state();
    let event = HousekeeperEvent::Purge(PurgeType::Account(Some(6)));
    assert!(purge(&event, &mut queue, &mut locks));
    assert_eq!(queue.find(2), None);
    assert_eq!(queue.find(1), Some(0));
    assert!(!locks.is_held(&recipient_key(2, 0), 101));
    assert!(locks.is_held(&recipient_key(1, 1), 101));
}

#[test]
fn a_purge_of_the_in_memory_store_takes_locks_and_counters() {
    let (mut queue, mut locks) = state();
    let event = HousekeeperEvent::Purge(PurgeType::Lookup {
        store: StoreRef::Default,
        prefix: Some(vec![21]),
    });
    assert!(purge(&event, &mut queue, &mut locks));
    assert!(!locks.is_held(&recipient_key(1, 1), 101));
    assert!(!locks.is_held(&recipient_key(2, 0), 101));
    assert_eq!(locks.counter(&domain_key(b"foobar.org"), 101), 1);
    assert_eq!(queue.messages.len(), 3);
    let event =
        HousekeeperEvent::Purge(PurgeType::Lookup { store: StoreRef::Default, prefix: None });
    assert!(purge(&event, &mut queue, &mut locks));
    assert_eq!(locks.counter(&domain_key(b"foobar.org"), 101), 0);
}

#[test]
fn purges_of_other_stores_are_left_alone() {
    for event in [
        HousekeeperEvent::Purge(PurgeType::Blobs),
        HousekeeperEvent::Purge(PurgeType::Data(StoreRef::Default)),
        HousekeeperEvent::Purge(PurgeType::Data(StoreRef::Named("sql".to_string()))),
        HousekeeperEvent::Purge(PurgeType::Lookup {
            store: StoreRef::Named("redis".to_string()),
            prefix: None,
        }),
    ] {
        let (mut queue, mut locks) = state();
        assert!(!purge(&event, &mut queue, &mut locks));
        assert_eq!(queue.messages.len(), 3);
        assert!(locks.is_held(&recipient_key(1, 1), 101));
        assert_eq!(locks.counter(&domain_key(b"foobar.org"), 101), 1);
    }
}
