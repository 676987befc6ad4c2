use outbound_queue::executor::{attempt_deadline, attempt_outcome, AttemptResult};
use outbound_queue::scheduler::{Cause, Outcome};

fn reply(code: u16, text: &str) -> AttemptResult {
    AttemptResult::Reply { code, text: text.to_string() }
}

#[test]
fn a_reply_in_the_two_hundreds_is_success() {
    assert_eq!(attempt_outcome(reply(250, "2.0.0 Ok"), 100, 101, 30), Outcome::Success);
    assert_eq!(attempt_outcome(reply(200, ""), 100, 100, 30), Outcome::Success);
    assert_eq!(attempt_outcome(reply(299, ""), 100, 130, 30), Outcome::Success);
}

#[test]
fn a_reply_in_the_four_hundreds_is_temporary() {
    assert_eq!(
        attempt_outcome(reply(451, "4.3.0 Try later"), 100, 101, 30),
        Outcome::TemporaryFailure { cause: Cause::Response { code: 451 } }
    );
    assert_eq!(
        attempt_outcome(reply(400, ""), 100, 101, 30),
        Outcome::TemporaryFailure { cause: Cause::Response { code: 400 } }
    );
}

#[test]
fn a_reply_in_the_five_hundreds_is_permanent_and_keeps_its_text() {
    assert_eq!(
        attempt_outcome(reply(550, "5.1.1 No such user"), 100, 101, 30),
        Outcome::PermanentFailure {
            cause: Cause::Response { code: 550 },
            reason: "5.1.1 No such user".to_string()
        }
    );
    assert_eq!(
        attempt_outcome(reply(599, "x"), 100, 101, 30),
        Outcome::PermanentFailure { cause: Cause::Response { code: 599 }, reason: "x".to_string() }
    );
}

#[test]
fn an_unexpected_reply_is_temporary() {
    for code in [0u16, 199, 300, 354, 600, 999] {
        assert_eq!(
            attempt_outcome(reply(code, "?"), 100, 101, 30),
            Outcome::TemporaryFailure { cause: Cause::Response { code } }
        );
    }
}

#[test]
fn a_failed_connection_is_temporary() {
    assert_eq!(
        attempt_outcome(AttemptResult::ConnectionFailed, 100, 101, 30),
        Outcome::TemporaryFailure { cause: Cause::Connection }
    );
}

#[test]
fn a_timeout_is_temporary() {
    assert_eq!(
        attempt_outcome(AttemptResult::TimedOut, 100, 130, 30),
        Outcome::TemporaryFailure { cause: Cause::Timeout }
    );
}

#[test]
fn an_attempt_that_ran_too_long_has_timed_out() {
    assert_eq!(
        attempt_outcome(reply(250, "Ok"), 100, 131, 30),
        Outcome::TemporaryFailure { cause: Cause::Timeout }
    );
    assert_eq!(
        attempt_outcome(reply(550, "No"), 100, 1_000, 30),
        Outcome::TemporaryFailure { cause: Cause::Timeout }
    );
    assert_eq!(attempt_outcome(reply(250, "Ok"), 100, 130, 30), Outcome::Success);
    // A clock that went back does not count against the attempt.
    assert_eq!(attempt_outcome(reply(250, "Ok"), 100, 50, 30), Outcome::Success);
    assert_eq!(attempt_outcome(reply(250, "Ok"), u64::MAX, u64::MAX, u64::MAX), Outcome::Success);
}

#[test]
fn the_deadline_is_the_start_and_the_timeout() {
    assert_eq!(attempt_deadline(100, 30), 130);
    assert_eq!(attempt_deadline(0, 0), 0);
    assert_eq!(attempt_deadline(u64::MAX - 5, 30), u64::MAX);
}
