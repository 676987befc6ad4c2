use outbound_queue::keyed::{copy_bytes, has_prefix, same_bytes, KeyedTable};
use outbound_queue::lock::{domain_key, recipient_key, LockInfo, LockStore};
use outbound_queue::namespace::{push_be_u32, push_be_u64};

#[test]
fn a_free_key_is_granted() {
    let mut locks = LockStore::new();
    assert!(!locks.is_held(b"k", 100));
    assert!(locks.acquire(b"k", 1, 100, 30));
    assert!(locks.is_held(b"k", 100));
    assert_eq!(locks.holder(b"k", 100), Some(1));
    assert_eq!(locks.holder(b"other", 100), None);
}

#[test]
fn a_held_key_is_refused() {
    let mut locks = LockStore::new();
    assert!(locks.acquire(b"k", 1, 100, 30));
    assert!(!locks.acquire(b"k", 2, 100, 30));
    assert!(!locks.acquire(b"k", 2, 129, 30));
    assert!(!locks.acquire(b"k", 1, 110, 30));
    assert_eq!(locks.holder(b"k", 129), Some(1));
    assert!(locks.acquire(b"j", 2, 100, 30));
}

#[test]
fn a_lock_that_was_never_released_runs_out() {
    let mut locks = LockStore::new();
    assert!(locks.acquire(b"k", 1, 100, 30));
    // The holder dies here.
    assert!(locks.is_held(b"k", 129));
    assert!(!locks.is_held(b"k", 130));
    assert_eq!(locks.holder(b"k", 130), None);
    assert!(locks.acquire(b"k", 2, 130, 30));
    assert_eq!(locks.holder(b"k", 131), Some(2));
    assert!(locks.is_held(b"k", 159));
    assert!(!locks.is_held(b"k", 160));
}

#[test]
fn a_lock_without_time_to_live_is_never_held() {
    let mut locks = LockStore::new();
    assert!(locks.acquire(b"k", 1, 100, 0));
    assert!(!locks.is_held(b"k", 100));
    assert!(locks.acquire(b"k", 2, 100, 5));
    assert_eq!(locks.holder(b"k", 104), Some(2));
}

#[test]
fn a_lock_lives_through_a_clock_that_goes_back() {
    let mut locks = LockStore::new();
    assert!(locks.acquire(b"k", 1, 100, 30));
    assert!(locks.is_held(b"k", 50));
    let info = LockInfo { holder: 1, acquired: u64::MAX, ttl: u64::MAX };
    assert!(info.is_live(u64::MAX));
    assert!(info.is_live(0));
    let info = LockInfo { holder: 1, acquired: 10, ttl: 5 };
    assert!(info.is_live(14));
    assert!(!info.is_live(15));
}

#[test]
fn only_the_holder_gives_a_lock_back() {
    let mut locks = LockStore::new();
    assert!(locks.acquire(b"k", 1, 100, 30));
    assert!(!locks.release(b"k", 2));
    assert!(locks.is_held(b"k", 101));
    assert!(locks.release(b"k", 1));
    assert!(!locks.is_held(b"k", 101));
    assert!(!locks.release(b"k", 1));
    assert!(locks.acquire(b"k", 2, 101, 30));
}

#[test]
fn a_late_release_does_not_take_the_next_holders_lock() {
    let mut locks = LockStore::new();
    assert!(locks.acquire(b"k", 1, 100, 30));
    assert!(locks.acquire(b"k", 2, 140, 30));
    assert!(!locks.release(b"k", 1));
    assert_eq!(locks.holder(b"k", 141), Some(2));
}

#[test]
fn a_lock_can_be_taken_away() {
    let mut locks = LockStore::new();
    assert!(locks.acquire(b"k", 1, 100, 30));
    locks.force_release(b"k");
    assert!(!locks.is_held(b"k", 100));
    locks.force_release(b"k");
    assert!(locks.acquire(b"k", 2, 100, 30));
}

#[test]
fn a_counter_stops_at_its_cap() {
    let mut locks = LockStore::new();
    assert_eq!(locks.counter(b"d", 100), 0);
    assert!(locks.atomic_increment(b"d", 1, 2, 100, 30));
    assert!(locks.atomic_increment(b"d", 2, 2, 100, 30));
    assert!(!locks.atomic_increment(b"d", 3, 2, 100, 30));
    assert_eq!(locks.counter(b"d", 100), 2);
    locks.atomic_decrement(b"d", 1);
    assert_eq!(locks.counter(b"d", 100), 1);
    assert!(locks.atomic_increment(b"d", 3, 2, 100, 30));
    assert!(!locks.atomic_increment(b"d", 4, 0, 100, 30));
    assert!(!locks.atomic_increment(b"e", 4, 0, 100, 30));
    assert_eq!(locks.counter(b"e", 100), 0);
}

#[test]
fn a_slot_is_given_back_by_its_holder() {
    let mut locks = LockStore::new();
    locks.atomic_decrement(b"d", 1);
    assert_eq!(locks.counter(b"d", 100), 0);
    assert!(locks.atomic_increment(b"d", 1, 1, 100, 30));
    locks.atomic_decrement(b"d", 2);
    assert_eq!(locks.counter(b"d", 100), 1);
    locks.atomic_decrement(b"d", 1);
    locks.atomic_decrement(b"d", 1);
    assert_eq!(locks.counter(b"d", 100), 0);
    assert!(locks.atomic_increment(b"d", 2, 1, 100, 30));
    // A holder with two slots gives them back one by one.
    assert!(locks.atomic_increment(b"t", 7, 3, 100, 30));
    assert!(locks.atomic_increment(b"t", 8, 3, 100, 30));
    assert!(locks.atomic_increment(b"t", 7, 3, 100, 30));
    locks.atomic_decrement(b"t", 7);
    assert_eq!(locks.counter(b"t", 100), 2);
    locks.atomic_decrement(b"t", 7);
    assert_eq!(locks.counter(b"t", 100), 1);
    locks.atomic_decrement(b"t", 7);
    assert_eq!(locks.counter(b"t", 100), 1);
}

#[test]
fn a_slot_that_was_never_given_back_runs_out() {
    let mut locks = LockStore::new();
    assert!(locks.atomic_increment(b"d", 1, 1, 100, 30));
    // The holder dies here.
    assert!(!locks.atomic_increment(b"d", 2, 1, 129, 30));
    assert_eq!(locks.counter(b"d", 129), 1);
    assert_eq!(locks.counter(b"d", 130), 0);
    assert!(locks.atomic_increment(b"d", 2, 1, 130, 30));
    assert_eq!(locks.counter(b"d", 130), 1);
    assert_eq!(locks.counter(b"d", 159), 1);
    assert_eq!(locks.counter(b"d", 160), 0);
    // A slot without time never counts.
    assert!(locks.atomic_increment(b"z", 1, 1, 100, 0));
    assert_eq!(locks.counter(b"z", 100), 0);
    assert!(locks.atomic_increment(b"y", 1, 1, u64::MAX - 1, 30));
    assert_eq!(locks.counter(b"y", u64::MAX - 1), 1);
    assert_eq!(locks.counter(b"y", u64::MAX), 1);
    assert!(locks.atomic_increment(b"x", 1, 1, u64::MAX - 1, 1));
    assert_eq!(locks.counter(b"x", u64::MAX), 0);
}

#[test]
fn locks_and_counters_do_not_touch_each_other() {
    let mut locks = LockStore::new();
    assert!(locks.acquire(b"k", 1, 100, 30));
    assert!(locks.atomic_increment(b"k", 1, 1, 100, 30));
    assert_eq!(locks.counter(b"k", 100), 1);
    assert!(locks.release(b"k", 1));
    assert_eq!(locks.counter(b"k", 100), 1);
    locks.atomic_decrement(b"k", 1);
    assert!(!locks.is_held(b"k", 100));
}

#[test]
fn keys_carry_their_namespace() {
    assert_eq!(recipient_key(0x0102_0304_0506_0708, 0x0a0b_0c0d),
        vec![21, 1, 2, 3, 4, 5, 6, 7, 8, 0x0a, 0x0b, 0x0c, 0x0d]);
    assert_eq!(recipient_key(0, 0), vec![21, 0, 0, 0, 0, 0, 0, 0, 0, 0, 0, 0, 0]);
    assert_eq!(recipient_key(u64::MAX, u32::MAX), {
        let mut key = vec![21u8];
        key.extend_from_slice(&[0xff; 12]);
        key
    });
    assert_eq!(domain_key(b"foobar.org"), {
        let mut key = vec![25u8];
        key.extend_from_slice(b"foobar.org");
        key
    });
    assert_eq!(domain_key(b""), vec![25]);
    assert_ne!(recipient_key(1, 2), recipient_key(2, 1));
    assert_ne!(recipient_key(1, 0), recipient_key(0, 1));
}

#[test]
fn numbers_are_written_most_significant_byte_first() {
    let mut out = vec![9u8];
    push_be_u32(&mut out, 0x0102_0304);
    assert_eq!(out, vec![9, 1, 2, 3, 4]);
    push_be_u64(&mut out, 0x1112_1314_1516_1718);
    assert_eq!(out, vec![9, 1, 2, 3, 4, 0x11, 0x12, 0x13, 0x14, 0x15, 0x16, 0x17, 0x18]);
    let mut out = Vec::new();
    push_be_u32(&mut out, u32::MAX);
    push_be_u32(&mut out, 0);
    push_be_u32(&mut out, 256);
    assert_eq!(out, vec![255, 255, 255, 255, 0, 0, 0, 0, 0, 0, 1, 0]);
    assert_eq!(out[8..12], 256u32.to_be_bytes());
}

#[test]
fn a_purge_takes_the_keys_of_a_prefix() {
    let mut locks = LockStore::new();
    assert!(locks.acquire(&[21, 1], 1, 100, 30));
    assert!(locks.acquire(&[21, 2], 1, 100, 30));
    assert!(locks.acquire(&[22, 1], 1, 100, 30));
    assert!(locks.atomic_increment(&[25, 7], 1, 5, 100, 30));
    assert!(locks.atomic_increment(&[2, 7], 1, 5, 100, 30));
    locks.purge(Some(&[21]));
    assert!(!locks.is_held(&[21, 1], 100));
    assert!(!locks.is_held(&[21, 2], 100));
    assert!(locks.is_held(&[22, 1], 100));
    assert_eq!(locks.counter(&[25, 7], 100), 1);
    locks.purge(Some(&[2, 7]));
    assert_eq!(locks.counter(&[2, 7], 100), 0);
    assert_eq!(locks.counter(&[25, 7], 100), 1);
    locks.purge(None);
    assert!(!locks.is_held(&[22, 1], 100));
    assert_eq!(locks.counter(&[25, 7], 100), 0);
}

#[test]
fn a_table_keeps_one_value_per_key() {
    let mut table: KeyedTable<u32> = KeyedTable::new();
    assert_eq!(table.get(b"a"), None);
    table.set(b"a", 1);
    table.set(b"b", 2);
    table.set(b"a", 3);
    assert_eq!(table.get(b"a"), Some(&3));
    assert_eq!(table.get(b"b"), Some(&2));
    assert_eq!(table.get(b""), None);
    assert!(table.remove(b"a"));
    assert!(!table.remove(b"a"));
    assert_eq!(table.get(b"a"), None);
    assert_eq!(table.get(b"b"), Some(&2));
    table.set(b"", 9);
    assert_eq!(table.get(b""), Some(&9));
    table.set(b"ab", 4);
    table.set(b"abc", 5);
    table.set(b"b", 6);
    table.remove_prefix(b"ab");
    assert_eq!(table.get(b"ab"), None);
    assert_eq!(table.get(b"abc"), None);
    assert_eq!(table.get(b"b"), Some(&6));
    assert_eq!(table.get(b""), Some(&9));
    table.remove_prefix(b"");
    assert_eq!(table.get(b"b"), None);
    assert_eq!(table.get(b""), None);
    table.set(b"z", 1);
    table.clear();
    assert_eq!(table.get(b"z"), None);
}

#[test]
fn bytes_are_compared_and_copied() {
    assert!(same_bytes(b"", b""));
    assert!(same_bytes(b"abc", b"abc"));
    assert!(!same_bytes(b"abc", b"abd"));
    assert!(!same_bytes(b"abc", b"ab"));
    assert_eq!(copy_bytes(b"abc"), b"abc".to_vec());
    assert_eq!(copy_bytes(b""), Vec::<u8>::new());
    assert!(has_prefix(b"abc", b""));
    assert!(has_prefix(b"abc", b"ab"));
    assert!(has_prefix(b"abc", b"abc"));
    assert!(!has_prefix(b"abc", b"abcd"));
    assert!(!has_prefix(b"abc", b"b"));
}
