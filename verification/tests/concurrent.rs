use outbound_queue::entry::{Message, RecipientEntry, Status};
use outbound_queue::executor::{attempt_outcome, AttemptResult};
use outbound_queue::lock::{domain_key, recipient_key, LockStore};
use outbound_queue::manager::{Action, Event, Phase, QueueConfig, Worker};
use outbound_queue::queue::Queue;
use outbound_queue::resolver::{DnsAnswer, IpAddress, ResolveStep, Resolver};
use outbound_queue::routing::MxRecord;
use outbound_queue::scheduler::RetryPolicy;

/// What the remote server answers to a delivery.
#[derive(Clone, Copy)]
enum Remote {
    Accepts,
    Defers,
    Rejects,
}

/// The shared state and the workers on it. Each worker has at most one event
/// on its way; a turn hands it over and carries out what the worker asks for.
struct World {
    now: u64,
    queue: Queue,
    locks: LockStore,
    resolver: Resolver,
    remote: Remote,
    /// The deliveries that the remote server took, by message and recipient.
    received: Vec<(u64, u32)>,
    /// The recipients that a worker is attempting right now.
    attempting: Vec<(u64, u32)>,
    /// The most attempts that were under way at once.
    most_at_once: usize,
    workers: Vec<Worker>,
    inbox: Vec<Option<Event>>,
    /// Workers that have died: their events are never handed over.
    dead: Vec<bool>,
    /// How many seconds pass with every round of turns.
    tick: u64,
}

fn config(concurrency: u64) -> QueueConfig {
    QueueConfig {
        concurrency,
        policy: RetryPolicy { base_interval: 60, max_interval: 600, max_retries: 4, max_age: 86_400 },
        attempt_timeout: 30,
        lock_margin: 10,
    }
}

impl World {
    fn new(workers: u64, concurrency: u64, remote: Remote) -> World {
        World {
            now: 1_000,
            queue: Queue::new(),
            locks: LockStore::new(),
            resolver: Resolver::new(),
            remote,
            received: Vec::new(),
            attempting: Vec::new(),
            most_at_once: 0,
            workers: (0..workers).map(|id| Worker::new(id, config(concurrency))).collect(),
            inbox: (0..workers).map(|_| None).collect(),
            dead: (0..workers).map(|_| false).collect(),
            tick: 0,
        }
    }

    fn send_message(&mut self, id: u64, from: &str, to: &[&str]) {
        let message = Message {
            id,
            account: 1,
            sender: from.to_string(),
            recipients: to
                .iter()
                .map(|address| {
                    let domain = address.split('@').nth(1).unwrap();
                    RecipientEntry::new(address.to_string(), domain.to_string())
                })
                .collect(),
            content: vec![id as u8],
            created: self.now,
        };
        assert!(self.queue.append(message));
    }

    fn refresh_all(&mut self) {
        for i in 0..self.workers.len() {
            if self.inbox[i].is_none() {
                self.inbox[i] = Some(Event::Refresh { message: None });
            }
        }
    }

    /// Hands worker `i` its event and carries out the action.
    fn turn(&mut self, i: usize) -> bool {
        if self.dead[i] {
            return false;
        }
        let event = match self.inbox[i].take() {
            Some(event) => event,
            None => return false,
        };
        if let Event::Attempted { .. } = event {
            let w = &self.workers[i];
            let c = &w.batch[w.cursor];
            let at = (c.message_id, c.recipient);
            self.attempting.retain(|x| *x != at);
        }
        let action = self.workers[i].step(event, self.now);
        self.inbox[i] = match action {
            Action::Ignore => None,
            Action::Wait { .. } => None,
            Action::Scan => Some(Event::Due {
                candidates: self.queue.due(self.now),
                next_due: self.queue.next_due(self.now),
            }),
            Action::AcquireLock { key, holder, ttl } => {
                Some(Event::Lock { granted: self.locks.acquire(&key, holder, self.now, ttl) })
            }
            Action::IncrementSlot { key, holder, max, ttl } => Some(Event::Slot {
                granted: self.locks.atomic_increment(&key, holder, max, self.now, ttl),
            }),
            Action::MarkInFlight { message_id, recipient } => Some(Event::Marked {
                persisted: self.queue.mark_in_flight(message_id, recipient, self.now),
            }),
            Action::Resolve { domain } => Some(Event::Routed(self.resolve(&domain))),
            Action::Attempt { message_id, recipient, deadline, .. } => {
                let at = (message_id, recipient);
                assert!(!self.attempting.contains(&at), "two attempts at once on {:?}", at);
                assert!(self.locks.holder(&recipient_key(message_id, recipient), self.now)
                    == Some(self.workers[i].id));
                assert!(deadline >= self.now);
                self.attempting.push(at);
                self.most_at_once = self.most_at_once.max(self.attempting.len());
                let result = match self.remote {
                    Remote::Accepts => {
                        self.received.push(at);
                        AttemptResult::Reply { code: 250, text: "2.0.0 Ok".to_string() }
                    }
                    Remote::Defers => {
                        AttemptResult::Reply { code: 451, text: "4.3.0 Later".to_string() }
                    }
                    Remote::Rejects => {
                        AttemptResult::Reply { code: 550, text: "5.1.1 Unknown".to_string() }
                    }
                };
                Some(Event::Attempted {
                    outcome: attempt_outcome(result, self.now, self.now, 30),
                })
            }
            Action::Persist { message_id, recipient, decision } => Some(Event::Persisted {
                persisted: self.queue.persist(message_id, recipient, decision),
            }),
            Action::DecrementSlot { key, holder } => {
                self.locks.atomic_decrement(&key, holder);
                Some(Event::SlotReleased)
            }
            Action::ReleaseLock { key, holder } => {
                self.locks.release(&key, holder);
                Some(Event::LockReleased)
            }
        };
        true
    }

    /// Resolves a domain; what the cache does not hold has no records.
    fn resolve(&mut self, domain: &str) -> ResolveStep {
        let mut step = self.resolver.resolve(domain, self.now);
        loop {
            step = match step {
                ResolveStep::QueryMx => {
                    self.resolver.mx_resolved(domain, DnsAnswer::Empty, self.now, self.now + 300)
                }
                ResolveStep::QueryHost(host) => self.resolver.host_resolved(
                    domain,
                    &host,
                    DnsAnswer::Empty,
                    self.now,
                    self.now + 300,
                ),
                done => return done,
            }
        }
    }

    /// Gives every worker one turn. Returns whether any of them moved.
    fn round(&mut self) -> bool {
        let mut moved = false;
        for i in 0..self.workers.len() {
            moved |= self.turn(i);
        }
        self.now += self.tick;
        moved
    }

    /// Lets the workers take turns until none has anything to do.
    fn run(&mut self) {
        let mut rounds = 0;
        while self.round() {
            rounds += 1;
            assert!(rounds < 1_000_000, "the workers do not come to rest");
        }
    }

    fn status(&self, id: u64, recipient: usize) -> &Status {
        &self.queue.messages[self.queue.find(id).unwrap()].recipients[recipient].status
    }
}

#[test]
fn concurrent_queue() {
    let mut world = World::new(20, 1, Remote::Accepts);
    world.resolver.mx_add(
        "foobar.org",
        vec![MxRecord { exchange: "mx.foobar.org".to_string(), preference: 10 }],
        world.now + 100,
    );
    world.resolver.host_add(
        "mx.foobar.org",
        vec![IpAddress::V4(u32::from_be_bytes([127, 0, 0, 1]))],
        world.now + 100,
    );
    for id in 0..100 {
        world.send_message(id, "john@test.org", &["bill@foobar.org"]);
    }
    world.refresh_all();
    world.run();

    assert!(world.queue.is_empty());
    assert_eq!(world.received.len(), 100);
    let mut received = world.received.clone();
    received.sort();
    received.dedup();
    assert_eq!(received.len(), 100);
    for id in 0..100 {
        assert_eq!(world.status(id, 0), &Status::Delivered);
        assert!(!world.locks.is_held(&recipient_key(id, 0), world.now));
    }
    assert_eq!(world.locks.counter(&domain_key(b"foobar.org"), world.now), 0);
    assert_eq!(world.most_at_once, 1);
    assert!(world.workers.iter().all(|w| w.phase == Phase::Idle));
}

#[test]
fn more_slots_let_more_workers_deliver_at_once() {
    let mut world = World::new(8, 3, Remote::Accepts);
    world.resolver.mx_add(
        "foobar.org",
        vec![MxRecord { exchange: "mx.foobar.org".to_string(), preference: 10 }],
        world.now + 100,
    );
    world.resolver.host_add("mx.foobar.org", vec![IpAddress::V4(1)], world.now + 100);
    for id in 0..40 {
        world.send_message(id, "john@test.org", &["bill@foobar.org", "jane@foobar.org"]);
    }
    world.refresh_all();
    world.run();
    assert!(world.queue.is_empty());
    assert_eq!(world.received.len(), 80);
    let mut received = world.received.clone();
    received.sort();
    received.dedup();
    assert_eq!(received.len(), 80);
    assert!(world.most_at_once <= 3);
    assert!(world.most_at_once > 1);
    assert_eq!(world.locks.counter(&domain_key(b"foobar.org"), world.now), 0);
}

#[test]
fn one_worker_drains_the_queue_alone() {
    let mut world = World::new(1, 1, Remote::Accepts);
    world.resolver.mx_add(
        "foobar.org",
        vec![MxRecord { exchange: "mx.foobar.org".to_string(), preference: 10 }],
        world.now + 100,
    );
    world.resolver.host_add("mx.foobar.org", vec![IpAddress::V4(1)], world.now + 100);
    for id in 0..10 {
        world.send_message(id, "john@test.org", &["bill@foobar.org"]);
    }
    world.refresh_all();
    world.run();
    assert!(world.queue.is_empty());
    assert_eq!(world.received, (0..10).map(|id| (id, 0)).collect::<Vec<(u64, u32)>>());
}

#[test]
fn a_domain_without_route_fails_at_once_and_is_never_retried() {
    let mut world = World::new(3, 1, Remote::Accepts);
    world.send_message(1, "john@test.org", &["bill@nowhere.org"]);
    world.refresh_all();
    world.run();
    assert_eq!(
        world.status(1, 0),
        &Status::PermanentFailure {
            reason: "Domain has no mail exchanger and no address record".to_string()
        }
    );
    assert_eq!(world.queue.messages[0].recipients[0].retry_count, 0);
    assert!(world.received.is_empty());
    assert!(world.queue.is_empty());
    assert_eq!(world.queue.next_due(world.now), None);
    // Later wake-ups find nothing to do.
    world.now += 100_000;
    world.refresh_all();
    world.run();
    assert!(world.received.is_empty());
    assert_eq!(world.most_at_once, 0);
}

#[test]
fn a_rejected_recipient_fails_with_the_remote_reason() {
    let mut world = World::new(2, 1, Remote::Rejects);
    world.resolver.mx_add(
        "foobar.org",
        vec![MxRecord { exchange: "mx.foobar.org".to_string(), preference: 10 }],
        world.now + 100,
    );
    world.resolver.host_add("mx.foobar.org", vec![IpAddress::V4(1)], world.now + 100);
    world.send_message(1, "john@test.org", &["bill@foobar.org"]);
    world.refresh_all();
    world.run();
    assert_eq!(
        world.status(1, 0),
        &Status::PermanentFailure { reason: "5.1.1 Unknown".to_string() }
    );
    assert!(world.queue.is_empty());
}

#[test]
fn a_deferred_recipient_is_due_later_each_time_and_dead_lettered_in_the_end() {
    let mut world = World::new(4, 1, Remote::Defers);
    world.resolver.mx_add(
        "foobar.org",
        vec![MxRecord { exchange: "mx.foobar.org".to_string(), preference: 10 }],
        1_000_000,
    );
    world.resolver.host_add("mx.foobar.org", vec![IpAddress::V4(1)], 1_000_000);
    world.send_message(1, "john@test.org", &["bill@foobar.org"]);
    let mut dues = Vec::new();
    loop {
        world.refresh_all();
        world.run();
        match world.status(1, 0) {
            Status::TemporaryFailure { retry_count, next_due } => {
                assert_eq!(*retry_count as usize, dues.len() + 1);
                assert!(dues.last().map_or(true, |last| next_due > last));
                dues.push(*next_due);
                // Before the due time nobody touches the recipient.
                world.now = *next_due - 1;
                world.refresh_all();
                world.run();
                assert_eq!(
                    world.status(1, 0),
                    &Status::TemporaryFailure { retry_count: dues.len() as u32, next_due: *dues.last().unwrap() }
                );
                world.now += 1;
            }
            Status::DeadLettered => break,
            other => panic!("unexpected status {:?}", other),
        }
    }
    assert_eq!(dues, vec![1_060, 1_180, 1_420, 1_900]);
    assert!(world.queue.is_empty());
    assert!(world.received.is_empty());
}

#[test]
fn a_dead_workers_claim_is_taken_over_when_its_lock_has_run_out() {
    let mut world = World::new(2, 1, Remote::Accepts);
    world.resolver.mx_add(
        "foobar.org",
        vec![MxRecord { exchange: "mx.foobar.org".to_string(), preference: 10 }],
        1_000_000,
    );
    world.resolver.host_add("mx.foobar.org", vec![IpAddress::V4(1)], 1_000_000);
    world.send_message(1, "john@test.org", &["bill@foobar.org"]);
    // The first worker claims the recipient and dies before it attempts. It
    // gives neither the lock nor the domain's slot back.
    world.inbox[0] = Some(Event::Refresh { message: None });
    while world.workers[0].phase != Phase::Resolving {
        assert!(world.turn(0));
    }
    world.dead[0] = true;
    assert_eq!(world.status(1, 0), &Status::InFlight);
    assert_eq!(world.locks.holder(&recipient_key(1, 0), world.now), Some(0));
    assert_eq!(world.locks.counter(&domain_key(b"foobar.org"), world.now), 1);

    // While the lock is live the other worker finds the recipient due but
    // cannot claim it.
    world.tick = 1;
    world.refresh_all();
    while world.now < 1_039 {
        world.round();
        assert_eq!(world.status(1, 0), &Status::InFlight);
        assert!(world.received.is_empty());
    }

    // Once lock and slot have run out the recipient is claimed again and
    // delivered.
    world.run();
    assert_eq!(world.status(1, 0), &Status::Delivered);
    assert_eq!(world.received, vec![(1, 0)]);
    assert!(world.queue.is_empty());
    assert_eq!(world.most_at_once, 1);
    assert_eq!(world.workers[1].phase, Phase::Idle);
    assert_eq!(world.workers[0].phase, Phase::Resolving);
}

#[test]
fn a_slow_worker_does_not_attempt_after_its_lease() {
    let mut world = World::new(1, 1, Remote::Accepts);
    world.resolver.mx_add(
        "foobar.org",
        vec![MxRecord { exchange: "mx.foobar.org".to_string(), preference: 10 }],
        1_000_000,
    );
    world.resolver.host_add("mx.foobar.org", vec![IpAddress::V4(1)], 1_000_000);
    world.send_message(1, "john@test.org", &["bill@foobar.org"]);
    world.inbox[0] = Some(Event::Refresh { message: None });
    while world.workers[0].phase != Phase::Resolving {
        assert!(world.turn(0));
    }
    // The routing reaches the worker only after its margin is used up: it
    // lets go of slot and lock without an attempt.
    world.now += 10;
    assert!(world.turn(0));
    assert_eq!(world.workers[0].phase, Phase::ReleasingSlot);
    assert!(world.turn(0));
    assert!(world.turn(0));
    assert!(world.received.is_empty());
    assert_eq!(world.most_at_once, 0);
    assert_eq!(world.status(1, 0), &Status::InFlight);
    assert_eq!(world.locks.counter(&domain_key(b"foobar.org"), world.now), 0);
    assert!(!world.locks.is_held(&recipient_key(1, 0), world.now));
    // The scan that follows claims the recipient anew and delivers it.
    world.run();
    assert_eq!(world.received, vec![(1, 0)]);
    assert!(world.queue.is_empty());
}
