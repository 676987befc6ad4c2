use outbound_queue::resolver::{
    unroutable_outcome, DnsAnswer, IpAddress, ResolveStep, Resolver, Target,
};
use outbound_queue::routing::{order_records, MxRecord};
use outbound_queue::scheduler::{Cause, Outcome};

fn mx(exchange: &str, preference: u16) -> MxRecord {
    MxRecord { exchange: exchange.to_string(), preference }
}

fn target(host: &str, address: u32) -> Target {
    Target { host: host.to_string(), address: IpAddress::V4(address) }
}

const LOCALHOST: u32 = 0x7f00_0001;

#[test]
fn records_are_ordered_by_preference() {
    let ordered = order_records(vec![mx("c", 30), mx("a", 10), mx("b", 20)]);
    assert_eq!(ordered, vec![mx("a", 10), mx("b", 20), mx("c", 30)]);
    assert_eq!(order_records(vec![]), vec![]);
    assert_eq!(order_records(vec![mx("only", 0)]), vec![mx("only", 0)]);
    assert_eq!(
        order_records(vec![mx("z", u16::MAX), mx("y", 0)]),
        vec![mx("y", 0), mx("z", u16::MAX)]
    );
}

#[test]
fn records_of_equal_preference_keep_the_order_of_the_answer() {
    let ordered = order_records(vec![
        mx("b1", 20),
        mx("a1", 10),
        mx("b2", 20),
        mx("a2", 10),
        mx("b3", 20),
        mx("a3", 10),
    ]);
    assert_eq!(
        ordered,
        vec![mx("a1", 10), mx("a2", 10), mx("a3", 10), mx("b1", 20), mx("b2", 20), mx("b3", 20)]
    );
    let same = order_records(vec![mx("x", 5), mx("y", 5), mx("x", 5)]);
    assert_eq!(same, vec![mx("x", 5), mx("y", 5), mx("x", 5)]);
}

#[test]
fn a_resolver_without_answers_asks_for_the_exchangers() {
    let resolver = Resolver::new();
    assert_eq!(resolver.resolve("foobar.org", 0), ResolveStep::QueryMx);
}

#[test]
fn injected_answers_give_the_targets() {
    let mut resolver = Resolver::new();
    resolver.mx_add("foobar.org", vec![mx("mx.foobar.org", 10)], 100);
    resolver.host_add("mx.foobar.org", vec![IpAddress::V4(LOCALHOST)], 100);
    assert_eq!(
        resolver.resolve("foobar.org", 0),
        ResolveStep::Targets(vec![target("mx.foobar.org", LOCALHOST)])
    );
    assert_eq!(resolver.resolve("other.org", 0), ResolveStep::QueryMx);
}

#[test]
fn targets_follow_preference_and_the_order_of_the_addresses() {
    let mut resolver = Resolver::new();
    resolver.mx_add("foobar.org", vec![mx("mx2", 20), mx("mx1", 10), mx("mx3", 20)], 100);
    resolver.host_add("mx1", vec![IpAddress::V4(1), IpAddress::V6(11)], 100);
    resolver.host_add("mx2", vec![IpAddress::V4(2)], 100);
    resolver.host_add("mx3", vec![IpAddress::V4(3), IpAddress::V4(33)], 100);
    assert_eq!(
        resolver.resolve("foobar.org", 50),
        ResolveStep::Targets(vec![
            target("mx1", 1),
            Target { host: "mx1".to_string(), address: IpAddress::V6(11) },
            target("mx2", 2),
            target("mx3", 3),
            target("mx3", 33),
        ])
    );
}

#[test]
fn an_answer_is_used_until_it_expires() {
    let mut resolver = Resolver::new();
    resolver.mx_add("foobar.org", vec![mx("mx.foobar.org", 10)], 100);
    resolver.host_add("mx.foobar.org", vec![IpAddress::V4(LOCALHOST)], 200);
    assert!(matches!(resolver.resolve("foobar.org", 99), ResolveStep::Targets(_)));
    assert_eq!(resolver.resolve("foobar.org", 100), ResolveStep::QueryMx);
    resolver.mx_add("foobar.org", vec![mx("mx.foobar.org", 10)], 300);
    assert!(matches!(resolver.resolve("foobar.org", 199), ResolveStep::Targets(_)));
    assert_eq!(
        resolver.resolve("foobar.org", 200),
        ResolveStep::QueryHost("mx.foobar.org".to_string())
    );
}

#[test]
fn an_entry_is_replaced_as_a_whole() {
    let mut resolver = Resolver::new();
    resolver.mx_add("foobar.org", vec![mx("old1", 10), mx("old2", 20)], 100);
    resolver.mx_add("foobar.org", vec![mx("new", 5)], 100);
    resolver.host_add("new", vec![IpAddress::V4(1)], 100);
    resolver.host_add("new", vec![IpAddress::V4(2)], 100);
    assert_eq!(resolver.resolve("foobar.org", 0), ResolveStep::Targets(vec![target("new", 2)]));
}

#[test]
fn the_first_exchanger_without_addresses_is_asked_for() {
    let mut resolver = Resolver::new();
    resolver.mx_add("foobar.org", vec![mx("mx2", 20), mx("mx1", 10)], 100);
    assert_eq!(resolver.resolve("foobar.org", 0), ResolveStep::QueryHost("mx1".to_string()));
    resolver.host_add("mx1", vec![IpAddress::V4(1)], 100);
    assert_eq!(resolver.resolve("foobar.org", 0), ResolveStep::QueryHost("mx2".to_string()));
}

#[test]
fn resolution_goes_on_as_answers_come_in() {
    let mut resolver = Resolver::new();
    assert_eq!(resolver.resolve("foobar.org", 10), ResolveStep::QueryMx);
    let step = resolver.mx_resolved(
        "foobar.org",
        DnsAnswer::Found(vec![mx("mx2", 20), mx("mx1", 10)]),
        10,
        310,
    );
    assert_eq!(step, ResolveStep::QueryHost("mx1".to_string()));
    let step = resolver.host_resolved(
        "foobar.org",
        "mx1",
        DnsAnswer::Found(vec![IpAddress::V4(1)]),
        10,
        310,
    );
    assert_eq!(step, ResolveStep::QueryHost("mx2".to_string()));
    let step = resolver.host_resolved("foobar.org", "mx2", DnsAnswer::Empty, 10, 310);
    assert_eq!(step, ResolveStep::Targets(vec![target("mx1", 1)]));
    assert_eq!(resolver.resolve("foobar.org", 309), ResolveStep::Targets(vec![target("mx1", 1)]));
    assert_eq!(resolver.resolve("foobar.org", 310), ResolveStep::QueryMx);
}

#[test]
fn a_query_without_answer_fails_for_now() {
    let mut resolver = Resolver::new();
    assert_eq!(
        resolver.mx_resolved("foobar.org", DnsAnswer::Failed, 10, 310),
        ResolveStep::Unroutable { permanent: false }
    );
    // Nothing was cached.
    assert_eq!(resolver.resolve("foobar.org", 10), ResolveStep::QueryMx);
    resolver.mx_add("foobar.org", vec![mx("mx1", 10)], 310);
    assert_eq!(
        resolver.host_resolved("foobar.org", "mx1", DnsAnswer::Failed, 10, 310),
        ResolveStep::Unroutable { permanent: false }
    );
    assert_eq!(resolver.resolve("foobar.org", 10), ResolveStep::QueryHost("mx1".to_string()));
}

#[test]
fn exchangers_without_addresses_fail_for_now() {
    let mut resolver = Resolver::new();
    resolver.mx_add("foobar.org", vec![mx("mx1", 10), mx("mx2", 20)], 100);
    resolver.host_add("mx1", vec![], 100);
    resolver.host_add("mx2", vec![], 100);
    assert_eq!(resolver.resolve("foobar.org", 0), ResolveStep::Unroutable { permanent: false });
}

#[test]
fn a_domain_without_exchangers_is_its_own_exchanger() {
    let mut resolver = Resolver::new();
    let step = resolver.mx_resolved("foobar.org", DnsAnswer::Empty, 10, 310);
    assert_eq!(step, ResolveStep::QueryHost("foobar.org".to_string()));
    let step = resolver.host_resolved(
        "foobar.org",
        "foobar.org",
        DnsAnswer::Found(vec![IpAddress::V4(9), IpAddress::V4(8)]),
        10,
        310,
    );
    assert_eq!(
        step,
        ResolveStep::Targets(vec![target("foobar.org", 9), target("foobar.org", 8)])
    );
}

#[test]
fn a_domain_without_exchangers_and_addresses_has_no_route() {
    let mut resolver = Resolver::new();
    assert_eq!(
        resolver.mx_resolved("nowhere.org", DnsAnswer::Empty, 10, 310),
        ResolveStep::QueryHost("nowhere.org".to_string())
    );
    assert_eq!(
        resolver.host_resolved("nowhere.org", "nowhere.org", DnsAnswer::Empty, 10, 310),
        ResolveStep::Unroutable { permanent: true }
    );
    assert_eq!(resolver.resolve("nowhere.org", 20), ResolveStep::Unroutable { permanent: true });
}

#[test]
fn no_route_is_a_permanent_failure() {
    assert_eq!(
        unroutable_outcome(true),
        Outcome::PermanentFailure {
            cause: Cause::NoRoute,
            reason: "Domain has no mail exchanger and no address record".to_string()
        }
    );
    assert_eq!(unroutable_outcome(false), Outcome::TemporaryFailure { cause: Cause::Resolution });
}
