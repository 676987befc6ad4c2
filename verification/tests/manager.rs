use outbound_queue::lock::{domain_key, recipient_key};
use outbound_queue::manager::{Action, Candidate, Event, Phase, QueueConfig, Worker};
use outbound_queue::resolver::{IpAddress, ResolveStep, Target};
use outbound_queue::scheduler::{Cause, Decision, Outcome, RetryPolicy};

fn config() -> QueueConfig {
    QueueConfig {
        concurrency: 1,
        policy: RetryPolicy { base_interval: 60, max_interval: 3600, max_retries: 3, max_age: 86_400 },
        attempt_timeout: 30,
        lock_margin: 10,
    }
}

fn candidate(message_id: u64, recipient: u32, domain: &str) -> Candidate {
    Candidate {
        message_id,
        recipient,
        domain: domain.to_string(),
        due: 50,
        retry_count: 0,
        created: 50,
    }
}

fn target(host: &str, address: u32) -> Target {
    Target { host: host.to_string(), address: IpAddress::V4(address) }
}

fn due(candidates: Vec<Candidate>) -> Event {
    Event::Due { candidates, next_due: None }
}

/// A worker that has claimed its one candidate and waits for the routing.
fn resolving() -> Worker {
    let mut w = Worker::new(1, config());
    w.step(Event::Refresh { message: None }, 100);
    w.step(due(vec![candidate(10, 0, "foobar.org")]), 100);
    w.step(Event::Lock { granted: true }, 100);
    w.step(Event::Slot { granted: true }, 100);
    w.step(Event::Marked { persisted: true }, 100);
    assert_eq!(w.phase, Phase::Resolving);
    w
}

#[test]
fn a_worker_starts_idle() {
    let w = Worker::new(7, config());
    assert_eq!(w.id, 7);
    assert_eq!(w.phase, Phase::Idle);
    assert_eq!(w.timer, None);
    assert!(w.batch.is_empty());
    assert!(!w.rescan);
}

#[test]
fn one_candidate_goes_through_every_phase() {
    let mut w = Worker::new(1, config());
    assert_eq!(w.step(Event::Refresh { message: None }, 100), Action::Scan);
    assert_eq!(w.phase, Phase::Scanning);
    let batch = vec![candidate(10, 0, "foobar.org"), candidate(11, 2, "test.org")];
    assert_eq!(
        w.step(Event::Due { candidates: batch, next_due: Some(500) }, 100),
        Action::AcquireLock { key: recipient_key(10, 0), holder: 1, ttl: 40 }
    );
    assert_eq!(w.phase, Phase::Locking);
    assert_eq!(
        w.step(Event::Lock { granted: true }, 101),
        Action::IncrementSlot { key: domain_key(b"foobar.org"), holder: 1, max: 1, ttl: 40 }
    );
    assert_eq!(
        w.step(Event::Slot { granted: true }, 101),
        Action::MarkInFlight { message_id: 10, recipient: 0 }
    );
    assert_eq!(
        w.step(Event::Marked { persisted: true }, 102),
        Action::Resolve { domain: "foobar.org".to_string() }
    );
    assert_eq!(
        w.step(
            Event::Routed(ResolveStep::Targets(vec![target("mx1", 1), target("mx2", 2)])),
            103
        ),
        Action::Attempt { message_id: 10, recipient: 0, target: target("mx1", 1), deadline: 133 }
    );
    assert_eq!(w.phase, Phase::Attempting);
    assert_eq!(
        w.step(Event::Attempted { outcome: Outcome::Success }, 110),
        Action::Persist { message_id: 10, recipient: 0, decision: Decision::Delivered }
    );
    assert_eq!(
        w.step(Event::Persisted { persisted: true }, 111),
        Action::DecrementSlot { key: domain_key(b"foobar.org"), holder: 1 }
    );
    assert_eq!(
        w.step(Event::SlotReleased, 111),
        Action::ReleaseLock { key: recipient_key(10, 0), holder: 1 }
    );
    assert_eq!(
        w.step(Event::LockReleased, 112),
        Action::AcquireLock { key: recipient_key(11, 2), holder: 1, ttl: 40 }
    );
    assert_eq!(w.claimed_at, 112);
    // The second candidate is another worker's: on to the end of the batch,
    // and, as there was work, to the next scan.
    assert_eq!(w.step(Event::Lock { granted: false }, 112), Action::Scan);
    assert_eq!(w.phase, Phase::Scanning);
    assert_eq!(w.step(Event::Due { candidates: vec![], next_due: Some(500) }, 113),
        Action::Wait { until: Some(500) });
    assert_eq!(w.phase, Phase::Idle);
}

#[test]
fn a_scan_without_candidates_idles_until_the_next_due_time() {
    let mut w = Worker::new(1, config());
    w.step(Event::Timer, 100);
    assert_eq!(
        w.step(Event::Due { candidates: vec![], next_due: Some(900) }, 100),
        Action::Wait { until: Some(900) }
    );
    assert_eq!(w.phase, Phase::Idle);
    assert_eq!(w.step(Event::Timer, 900), Action::Scan);
    assert_eq!(
        w.step(Event::Due { candidates: vec![], next_due: None }, 900),
        Action::Wait { until: None }
    );
}

#[test]
fn a_held_lock_is_passed_over() {
    let mut w = Worker::new(1, config());
    w.step(Event::Refresh { message: Some(10) }, 100);
    w.step(due(vec![candidate(10, 0, "a.org"), candidate(10, 1, "b.org")]), 100);
    assert_eq!(
        w.step(Event::Lock { granted: false }, 100),
        Action::AcquireLock { key: recipient_key(10, 1), holder: 1, ttl: 40 }
    );
    assert_eq!(
        w.step(Event::Lock { granted: true }, 100),
        Action::IncrementSlot { key: domain_key(b"b.org"), holder: 1, max: 1, ttl: 40 }
    );
}

#[test]
fn a_domain_at_capacity_gives_the_lock_back_at_once() {
    let mut w = Worker::new(1, config());
    w.step(Event::Refresh { message: None }, 100);
    w.step(due(vec![candidate(10, 0, "a.org"), candidate(11, 0, "a.org")]), 100);
    w.step(Event::Lock { granted: true }, 100);
    assert_eq!(
        w.step(Event::Slot { granted: false }, 100),
        Action::ReleaseLock { key: recipient_key(10, 0), holder: 1 }
    );
    assert_eq!(
        w.step(Event::LockReleased, 100),
        Action::AcquireLock { key: recipient_key(11, 0), holder: 1, ttl: 40 }
    );
}

#[test]
fn a_mark_that_fails_ends_the_attempt() {
    let mut w = Worker::new(1, config());
    w.step(Event::Refresh { message: None }, 100);
    w.step(due(vec![candidate(10, 0, "a.org")]), 100);
    w.step(Event::Lock { granted: true }, 100);
    w.step(Event::Slot { granted: true }, 100);
    assert_eq!(
        w.step(Event::Marked { persisted: false }, 100),
        Action::DecrementSlot { key: domain_key(b"a.org"), holder: 1 }
    );
    assert_eq!(
        w.step(Event::SlotReleased, 100),
        Action::ReleaseLock { key: recipient_key(10, 0), holder: 1 }
    );
    assert_eq!(w.step(Event::LockReleased, 100), Action::Scan);
}

#[test]
fn an_attempt_begins_only_while_the_lock_outlasts_it() {
    let routed = || Event::Routed(ResolveStep::Targets(vec![target("mx1", 1)]));
    let mut w = resolving();
    assert_eq!(
        w.step(routed(), 109),
        Action::Attempt { message_id: 10, recipient: 0, target: target("mx1", 1), deadline: 139 }
    );
    assert_eq!(w.attempt_started, 109);
    let mut w = resolving();
    assert_eq!(w.step(routed(), 110), Action::DecrementSlot { key: domain_key(b"foobar.org"), holder: 1 });
    assert_eq!(w.phase, Phase::ReleasingSlot);
    let mut w = resolving();
    assert_eq!(w.step(routed(), 5_000), Action::DecrementSlot { key: domain_key(b"foobar.org"), holder: 1 });
}

#[test]
fn a_temporary_failure_is_scheduled_and_moves_the_timer() {
    let mut w = Worker::new(1, config());
    w.step(Event::Refresh { message: None }, 100);
    w.step(
        Event::Due { candidates: vec![candidate(10, 0, "foobar.org")], next_due: Some(1_000) },
        100,
    );
    w.step(Event::Lock { granted: true }, 100);
    w.step(Event::Slot { granted: true }, 100);
    w.step(Event::Marked { persisted: true }, 100);
    w.step(Event::Routed(ResolveStep::Targets(vec![target("mx1", 1)])), 100);
    assert_eq!(
        w.step(
            Event::Attempted { outcome: Outcome::TemporaryFailure { cause: Cause::Connection } },
            105
        ),
        Action::Persist {
            message_id: 10,
            recipient: 0,
            decision: Decision::RetryAt { due: 165, retry_count: 1 }
        }
    );
    assert_eq!(w.timer, Some(165));
}

#[test]
fn a_later_retry_leaves_the_timer() {
    let mut w = Worker::new(1, config());
    w.step(Event::Refresh { message: None }, 100);
    w.step(
        Event::Due { candidates: vec![candidate(10, 0, "foobar.org")], next_due: Some(120) },
        100,
    );
    w.step(Event::Lock { granted: true }, 100);
    w.step(Event::Slot { granted: true }, 100);
    w.step(Event::Marked { persisted: true }, 100);
    w.step(Event::Routed(ResolveStep::Targets(vec![target("mx1", 1)])), 100);
    w.step(Event::Attempted { outcome: Outcome::TemporaryFailure { cause: Cause::Timeout } }, 130);
    assert_eq!(w.timer, Some(120));
}

#[test]
fn a_domain_without_route_fails_for_good() {
    let mut w = resolving();
    assert_eq!(
        w.step(Event::Routed(ResolveStep::Unroutable { permanent: true }), 101),
        Action::Persist {
            message_id: 10,
            recipient: 0,
            decision: Decision::PermanentFailure {
                reason: "Domain has no mail exchanger and no address record".to_string()
            }
        }
    );
    assert_eq!(w.phase, Phase::Persisting);
}

#[test]
fn a_resolution_that_failed_is_retried() {
    for step in [
        ResolveStep::Unroutable { permanent: false },
        ResolveStep::Targets(vec![]),
        ResolveStep::QueryMx,
        ResolveStep::QueryHost("mx1".to_string()),
    ] {
        let mut w = resolving();
        assert_eq!(
            w.step(Event::Routed(step), 101),
            Action::Persist {
                message_id: 10,
                recipient: 0,
                decision: Decision::RetryAt { due: 161, retry_count: 1 }
            }
        );
    }
}

#[test]
fn the_outcome_is_persisted_even_after_the_lease() {
    let mut w = resolving();
    w.step(Event::Routed(ResolveStep::Targets(vec![target("mx1", 1)])), 100);
    assert_eq!(
        w.step(Event::Attempted { outcome: Outcome::Success }, 9_999),
        Action::Persist { message_id: 10, recipient: 0, decision: Decision::Delivered }
    );
}

#[test]
fn slot_and_lock_go_back_when_the_decision_could_not_be_persisted() {
    let mut w = resolving();
    w.step(Event::Routed(ResolveStep::Targets(vec![target("mx1", 1)])), 100);
    w.step(Event::Attempted { outcome: Outcome::Success }, 101);
    assert_eq!(
        w.step(Event::Persisted { persisted: false }, 102),
        Action::DecrementSlot { key: domain_key(b"foobar.org"), holder: 1 }
    );
    assert_eq!(
        w.step(Event::SlotReleased, 102),
        Action::ReleaseLock { key: recipient_key(10, 0), holder: 1 }
    );
}

#[test]
fn an_event_that_does_not_fit_is_ignored() {
    let mut w = Worker::new(1, config());
    for event in [
        due(vec![candidate(1, 0, "a.org")]),
        Event::Lock { granted: true },
        Event::Slot { granted: true },
        Event::Marked { persisted: true },
        Event::Routed(ResolveStep::QueryMx),
        Event::Attempted { outcome: Outcome::Success },
        Event::Persisted { persisted: true },
        Event::SlotReleased,
        Event::LockReleased,
    ] {
        assert_eq!(w.step(event, 100), Action::Ignore);
        assert_eq!(w, Worker::new(1, config()));
    }
    let mut w = resolving();
    let before = resolving();
    assert_eq!(w.step(Event::Lock { granted: true }, 100), Action::Ignore);
    assert_eq!(w.step(Event::Attempted { outcome: Outcome::Success }, 100), Action::Ignore);
    assert_eq!(w, before);
}

#[test]
fn a_refresh_to_a_busy_worker_is_remembered() {
    let mut w = Worker::new(1, config());
    w.step(Event::Refresh { message: None }, 100);
    assert_eq!(w.step(Event::Refresh { message: None }, 100), Action::Ignore);
    assert!(w.rescan);
    // The scan finds nothing, but a signal came meanwhile: scan again.
    assert_eq!(w.step(due(vec![]), 100), Action::Scan);
    assert!(!w.rescan);
    assert_eq!(w.step(due(vec![]), 100), Action::Wait { until: None });
}

#[test]
fn a_refresh_and_the_timer_do_the_same() {
    let mut a = resolving();
    let mut b = resolving();
    let mut c = resolving();
    assert_eq!(a.step(Event::Refresh { message: None }, 100), Action::Ignore);
    assert_eq!(b.step(Event::Refresh { message: Some(77) }, 100), Action::Ignore);
    assert_eq!(c.step(Event::Timer, 100), Action::Ignore);
    assert_eq!(a, b);
    assert_eq!(a, c);
}

#[test]
fn settings_are_checked() {
    assert!(config().is_valid());
    assert!(config().policy.is_valid());
    assert!(!QueueConfig { concurrency: 0, ..config() }.is_valid());
    assert!(!QueueConfig { lock_margin: 0, ..config() }.is_valid());
    assert!(!QueueConfig { attempt_timeout: u64::MAX, ..config() }.is_valid());
    assert!(QueueConfig { attempt_timeout: u64::MAX - 10, ..config() }.is_valid());
    let policy = config().policy;
    assert!(!RetryPolicy { base_interval: 0, ..policy }.is_valid());
    assert!(!RetryPolicy { base_interval: 3601, ..policy }.is_valid());
    assert!(RetryPolicy { base_interval: 3600, ..policy }.is_valid());
    assert!(!QueueConfig { policy: RetryPolicy { base_interval: 0, ..policy }, ..config() }
        .is_valid());
}
