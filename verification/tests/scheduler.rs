use outbound_queue::scheduler::{Cause, Decision, Outcome, RetryPolicy};

fn policy() -> RetryPolicy {
    RetryPolicy { base_interval: 60, max_interval: 3600, max_retries: 8, max_age: 86_400 }
}

fn temporary() -> Outcome {
    Outcome::TemporaryFailure { cause: Cause::Timeout }
}

#[test]
fn success_is_delivered() {
    assert_eq!(policy().decide(Outcome::Success, 0, 1_000, 900), Decision::Delivered);
    assert_eq!(policy().decide(Outcome::Success, 8, 1_000_000, 0), Decision::Delivered);
}

#[test]
fn a_permanent_failure_keeps_the_reason() {
    let outcome = Outcome::PermanentFailure {
        cause: Cause::Response { code: 550 },
        reason: "550 5.1.1 No such user".to_string(),
    };
    assert_eq!(
        policy().decide(outcome, 0, 1_000, 900),
        Decision::PermanentFailure { reason: "550 5.1.1 No such user".to_string() }
    );
}

#[test]
fn the_wait_doubles_with_every_retry() {
    let policy = policy();
    assert_eq!(policy.backoff_interval(0), 60);
    assert_eq!(policy.backoff_interval(1), 120);
    assert_eq!(policy.backoff_interval(2), 240);
    assert_eq!(policy.backoff_interval(3), 480);
    assert_eq!(policy.backoff_interval(4), 960);
    assert_eq!(policy.backoff_interval(5), 1920);
}

#[test]
fn the_wait_is_capped() {
    let policy = policy();
    assert_eq!(policy.backoff_interval(6), 3600);
    assert_eq!(policy.backoff_interval(7), 3600);
    assert_eq!(policy.backoff_interval(64), 3600);
    assert_eq!(policy.backoff_interval(u32::MAX), 3600);
    let flat = RetryPolicy { base_interval: 5, max_interval: 5, max_retries: 3, max_age: 10 };
    assert_eq!(flat.backoff_interval(0), 5);
    assert_eq!(flat.backoff_interval(9), 5);
    let wide =
        RetryPolicy { base_interval: 1, max_interval: u64::MAX, max_retries: 3, max_age: 10 };
    assert_eq!(wide.backoff_interval(63), 1 << 63);
    assert_eq!(wide.backoff_interval(64), u64::MAX);
}

#[test]
fn a_temporary_failure_is_retried_later() {
    assert_eq!(
        policy().decide(temporary(), 0, 1_000, 900),
        Decision::RetryAt { due: 1_060, retry_count: 1 }
    );
    assert_eq!(
        policy().decide(temporary(), 3, 5_000, 900),
        Decision::RetryAt { due: 5_480, retry_count: 4 }
    );
    assert_eq!(
        policy().decide(temporary(), 7, 10_000, 900),
        Decision::RetryAt { due: 13_600, retry_count: 8 }
    );
}

#[test]
fn retries_end_in_dead_letter() {
    assert_eq!(policy().decide(temporary(), 8, 10_000, 900), Decision::DeadLetter);
    assert_eq!(policy().decide(temporary(), 9, 10_000, 900), Decision::DeadLetter);
    let none = RetryPolicy { base_interval: 1, max_interval: 1, max_retries: 0, max_age: 10 };
    assert_eq!(none.decide(temporary(), 0, 5, 5), Decision::DeadLetter);
}

#[test]
fn an_old_message_is_dead_lettered() {
    assert_eq!(
        policy().decide(temporary(), 1, 86_400, 0),
        Decision::RetryAt { due: 86_520, retry_count: 2 }
    );
    assert_eq!(policy().decide(temporary(), 1, 86_401, 0), Decision::DeadLetter);
    // A clock that went back makes the message no older.
    assert_eq!(
        policy().decide(temporary(), 0, 10, 5_000),
        Decision::RetryAt { due: 70, retry_count: 1 }
    );
}

#[test]
fn due_times_rise_until_the_cap() {
    let policy = RetryPolicy { base_interval: 10, max_interval: 300, max_retries: 6, max_age: 1_000_000 };
    let mut now = 1_000;
    let mut retries = 0;
    let mut dues = Vec::new();
    loop {
        match policy.decide(temporary(), retries, now, 1_000) {
            Decision::RetryAt { due, retry_count } => {
                assert!(due > now);
                assert_eq!(retry_count, retries + 1);
                dues.push(due);
                retries = retry_count;
                now = due;
            }
            Decision::DeadLetter => break,
            other => panic!("unexpected decision {:?}", other),
        }
    }
    assert_eq!(dues, vec![1_010, 1_030, 1_070, 1_150, 1_310, 1_610]);
    assert_eq!(retries, 6);
}

#[test]
fn the_due_time_stops_at_the_end_of_the_clock() {
    assert_eq!(
        policy().decide(temporary(), 0, u64::MAX - 10, u64::MAX - 20),
        Decision::RetryAt { due: u64::MAX, retry_count: 1 }
    );
}
