//! The routing resolver: a cache of mail-exchanger and address answers with
//! expiry, and the walk from a domain to its delivery targets.

use vstd::prelude::*;
use vstd::utf8::encode_utf8;
use crate::keyed::KeyedTable;
use crate::routing::{delivery_order, order_records, record_views, MxRecord, MxRecordView};
use crate::scheduler::{Cause, Outcome, OutcomeView};

verus! {

/// A network address of a host.
#[derive(Clone, Copy, Debug, PartialEq, Eq, Structural)]
pub enum IpAddress {
    V4(u32),
    V6(u128),
}

/// One place to deliver to: a host and one of its addresses.
#[derive(Debug, PartialEq, Eq)]
pub struct Target {
    pub host: String,
    pub address: IpAddress,
}

pub struct TargetView {
    pub host: Seq<char>,
    pub address: IpAddress,
}

impl View for Target {
    type V = TargetView;

    open spec fn view(&self) -> TargetView {
        TargetView { host: self.host@, address: self.address }
    }
}

/// The targets of a list as the contracts see them.
pub open spec fn target_views(targets: Seq<Target>) -> Seq<TargetView> {
    Seq::new(targets.len(), |i: int| targets[i]@)
}

/// A cached answer to a mail-exchanger query. An answer without records
/// says that the domain has none.
pub struct MxEntry {
    pub records: Vec<MxRecord>,
    pub expires: u64,
}

pub struct MxEntryView {
    pub records: Seq<MxRecordView>,
    pub expires: u64,
}

impl View for MxEntry {
    type V = MxEntryView;

    open spec fn view(&self) -> MxEntryView {
        MxEntryView { records: record_views(self.records@), expires: self.expires }
    }
}

/// A cached answer to an address query. An answer without addresses says
/// that the host has none.
pub struct HostEntry {
    pub addresses: Vec<IpAddress>,
    pub expires: u64,
}

pub struct HostEntryView {
    pub addresses: Seq<IpAddress>,
    pub expires: u64,
}

impl View for HostEntry {
    type V = HostEntryView;

    open spec fn view(&self) -> HostEntryView {
        HostEntryView { addresses: self.addresses@, expires: self.expires }
    }
}

/// What a query came to.
pub enum DnsAnswer<T> {
    /// These records.
    Found(T),
    /// The name has no such records.
    Empty,
    /// No answer: a timeout or a failing server.
    Failed,
}

/// Where resolution stands.
#[derive(Debug, PartialEq, Eq)]
pub enum ResolveStep {
    /// Deliver to these targets, in this order.
    Targets(Vec<Target>),
    /// Query the domain's mail exchangers and hand the answer to `mx_resolved`.
    QueryMx,
    /// Query the host's addresses and hand the answer to `host_resolved`.
    QueryHost(String),
    /// There is nowhere to deliver to: for good, or for now.
    Unroutable { permanent: bool },
}

pub enum ResolveStepView {
    Targets(Seq<TargetView>),
    QueryMx,
    QueryHost(Seq<char>),
    Unroutable { permanent: bool },
}

impl View for ResolveStep {
    type V = ResolveStepView;

    open spec fn view(&self) -> ResolveStepView {
        match self {
            ResolveStep::Targets(targets) => ResolveStepView::Targets(target_views(targets@)),
            ResolveStep::QueryMx => ResolveStepView::QueryMx,
            ResolveStep::QueryHost(host) => ResolveStepView::QueryHost(host@),
            ResolveStep::Unroutable { permanent } => ResolveStepView::Unroutable {
                permanent: *permanent,
            },
        }
    }
}

/// The key that a name is cached under.
pub open spec fn name_key(name: Seq<char>) -> Seq<u8> {
    encode_utf8(name)
}

/// Whether the cache holds an answer for the key that has not expired.
pub open spec fn fresh_mx(cache: Map<Seq<u8>, MxEntryView>, key: Seq<u8>, now: u64) -> bool {
    cache.contains_key(key) && now < cache[key].expires
}

/// Whether the cache holds an answer for the key that has not expired.
pub open spec fn fresh_host(cache: Map<Seq<u8>, HostEntryView>, key: Seq<u8>, now: u64) -> bool {
    cache.contains_key(key) && now < cache[key].expires
}

/// One target for each address of a host, in the order of the addresses.
pub open spec fn targets_of(host: Seq<char>, addresses: Seq<IpAddress>) -> Seq<TargetView> {
    Seq::new(addresses.len(), |i: int| TargetView { host, address: addresses[i] })
}

/// The walk over a domain's exchangers from the `i`-th on, with the targets
/// `found` so far: the first exchanger without a fresh address answer has to
/// be queried; otherwise every exchanger adds its targets. Exchangers
/// without addresses add none, and if none is left at the end, delivery has
/// to wait.
pub open spec fn walk(
    records: Seq<MxRecordView>,
    hosts: Map<Seq<u8>, HostEntryView>,
    now: u64,
    i: int,
    found: Seq<TargetView>,
) -> ResolveStepView
    decreases records.len() - i,
{
    if i < 0 || i >= records.len() {
        if found.len() == 0 {
            ResolveStepView::Unroutable { permanent: false }
        } else {
            ResolveStepView::Targets(found)
        }
    } else {
        let host = records[i].exchange;
        if !fresh_host(hosts, name_key(host), now) {
            ResolveStepView::QueryHost(host)
        } else {
            walk(
                records,
                hosts,
                now,
                i + 1,
                found + targets_of(host, hosts[name_key(host)].addresses),
            )
        }
    }
}

/// Where the resolution of a domain stands at `now`, given the caches.
/// Without a fresh exchanger answer the exchangers have to be queried. A
/// domain without exchangers is its own exchanger; if it has no address
/// either, it has no mail routing at all.
pub open spec fn spec_resolve(
    mx: Map<Seq<u8>, MxEntryView>,
    hosts: Map<Seq<u8>, HostEntryView>,
    domain: Seq<char>,
    now: u64,
) -> ResolveStepView {
    let key = name_key(domain);
    if !fresh_mx(mx, key, now) {
        ResolveStepView::QueryMx
    } else if mx[key].records.len() == 0 {
        if !fresh_host(hosts, key, now) {
            ResolveStepView::QueryHost(domain)
        } else if hosts[key].addresses.len() == 0 {
            ResolveStepView::Unroutable { permanent: true }
        } else {
            ResolveStepView::Targets(targets_of(domain, hosts[key].addresses))
        }
    } else {
        walk(mx[key].records, hosts, now, 0, Seq::empty())
    }
}

/// The outcome of an attempt that found nowhere to deliver to.
pub open spec fn spec_unroutable(permanent: bool) -> OutcomeView {
    if permanent {
        OutcomeView::PermanentFailure {
            cause: Cause::NoRoute,
            reason: "Domain has no mail exchanger and no address record"@,
        }
    } else {
        OutcomeView::TemporaryFailure { cause: Cause::Resolution }
    }
}

/// The outcome of an attempt that found nowhere to deliver to: a domain
/// without any mail routing fails for good, anything else for now.
pub fn unroutable_outcome(permanent: bool) -> (r: Outcome)
    ensures
        r@ == spec_unroutable(permanent),
{
    if permanent {
        Outcome::PermanentFailure {
            cause: Cause::NoRoute,
            reason: "Domain has no mail exchanger and no address record".to_owned(),
        }
    } else {
        Outcome::TemporaryFailure { cause: Cause::Resolution }
    }
}

fn push_targets(found: &mut Vec<Target>, host: &str, addresses: &Vec<IpAddress>)
    ensures
        target_views(final(found)@) == target_views(old(found)@) + targets_of(host@, addresses@),
{
    let mut i: usize = 0;
    while i < addresses.len()
        invariant
            i <= addresses.len(),
            target_views(found@) == target_views(old(found)@) + targets_of(
                host@,
                addresses@.subrange(0, i as int),
            ),
        decreases addresses.len() - i,
    {
        let ghost before = found@;
        found.push(Target { host: host.to_owned(), address: addresses[i] });
        assert(target_views(found@) =~= target_views(before) + seq![
            TargetView { host: host@, address: addresses@[i as int] },
        ]);
        assert(targets_of(host@, addresses@.subrange(0, i + 1)) =~= targets_of(
            host@,
            addresses@.subrange(0, i as int),
        ) + seq![TargetView { host: host@, address: addresses@[i as int] }]);
        i += 1;
    }
    assert(addresses@.subrange(0, addresses@.len() as int) =~= addresses@);
}

/// The resolver's caches. An entry is replaced as a whole, never changed.
pub struct Resolver {
    mx: KeyedTable<MxEntry>,
    hosts: KeyedTable<HostEntry>,
}

impl Resolver {
    /// The cached exchanger answers by name.
    pub closed spec fn mx_cache(&self) -> Map<Seq<u8>, MxEntryView> {
        self.mx@.map_values(|entry: MxEntry| entry@)
    }

    /// The cached address answers by name.
    pub closed spec fn host_cache(&self) -> Map<Seq<u8>, HostEntryView> {
        self.hosts@.map_values(|entry: HostEntry| entry@)
    }

    /// A resolver that has cached nothing.
    pub fn new() -> (r: Self)
        ensures
            r.mx_cache() == Map::<Seq<u8>, MxEntryView>::empty(),
            r.host_cache() == Map::<Seq<u8>, HostEntryView>::empty(),
    {
        let r = Resolver { mx: KeyedTable::new(), hosts: KeyedTable::new() };
        assert(r.mx_cache() =~= Map::<Seq<u8>, MxEntryView>::empty());
        assert(r.host_cache() =~= Map::<Seq<u8>, HostEntryView>::empty());
        r
    }

    /// Caches a domain's exchangers, in delivery order, until `expires`.
    pub fn mx_add(&mut self, domain: &str, records: Vec<MxRecord>, expires: u64)
        ensures
            final(self).mx_cache() == old(self).mx_cache().insert(
                name_key(domain@),
                MxEntryView { records: delivery_order(record_views(records@)), expires },
            ),
            final(self).host_cache() == old(self).host_cache(),
    {
        let entry = MxEntry { records: order_records(records), expires };
        let ghost view = entry@;
        self.mx.set(domain.as_bytes(), entry);
        assert(self.mx_cache() =~= old(self).mx_cache().insert(name_key(domain@), view));
    }

    /// Caches a host's addresses until `expires`.
    pub fn host_add(&mut self, host: &str, addresses: Vec<IpAddress>, expires: u64)
        ensures
            final(self).host_cache() == old(self).host_cache().insert(
                name_key(host@),
                HostEntryView { addresses: addresses@, expires },
            ),
            final(self).mx_cache() == old(self).mx_cache(),
    {
        let entry = HostEntry { addresses, expires };
        let ghost view = entry@;
        self.hosts.set(host.as_bytes(), entry);
        assert(self.host_cache() =~= old(self).host_cache().insert(name_key(host@), view));
    }

    fn fresh_records(&self, domain: &str, now: u64) -> (r: Option<&Vec<MxRecord>>)
        ensures
            r is Some == fresh_mx(self.mx_cache(), name_key(domain@), now),
            r matches Some(records) ==> record_views(records@) == self.mx_cache()[name_key(
                domain@,
            )].records,
    {
        match self.mx.get(domain.as_bytes()) {
            None => None,
            Some(entry) => if now < entry.expires {
                Some(&entry.records)
            } else {
                None
            },
        }
    }

    fn fresh_addresses(&self, host: &str, now: u64) -> (r: Option<&Vec<IpAddress>>)
        ensures
            r is Some == fresh_host(self.host_cache(), name_key(host@), now),
            r matches Some(addresses) ==> addresses@ == self.host_cache()[name_key(
                host@,
            )].addresses,
    {
        match self.hosts.get(host.as_bytes()) {
            None => None,
            Some(entry) => if now < entry.expires {
                Some(&entry.addresses)
            } else {
                None
            },
        }
    }

    /// Finds the delivery targets of a domain, or what has to be queried
    /// first. What the caches hold is used until it expires.
    pub fn resolve(&self, domain: &str, now: u64) -> (r: ResolveStep)
        ensures
            r@ == spec_resolve(self.mx_cache(), self.host_cache(), domain@, now),
    {
        let records = match self.fresh_records(domain, now) {
            None => {
                return ResolveStep::QueryMx;
            },
            Some(records) => records,
        };
        let mut found: Vec<Target> = Vec::new();
        if records.len() == 0 {
            return match self.fresh_addresses(domain, now) {
                None => ResolveStep::QueryHost(domain.to_owned()),
                Some(addresses) => if addresses.len() == 0 {
                    ResolveStep::Unroutable { permanent: true }
                } else {
                    push_targets(&mut found, domain, addresses);
                    assert(target_views(found@) =~= targets_of(domain@, addresses@));
                    ResolveStep::Targets(found)
                },
            };
        }
        let ghost views = record_views(records@);
        let ghost hosts = self.host_cache();
        let mut i: usize = 0;
        assert(target_views(found@) =~= Seq::<TargetView>::empty());
        while i < records.len()
            invariant
                i <= records.len(),
                views == record_views(records@),
                hosts == self.host_cache(),
                spec_resolve(self.mx_cache(), self.host_cache(), domain@, now) == walk(
                    views,
                    hosts,
                    now,
                    0,
                    Seq::empty(),
                ),
                walk(views, hosts, now, i as int, target_views(found@)) == walk(
                    views,
                    hosts,
                    now,
                    0,
                    Seq::empty(),
                ),
            decreases records.len() - i,
        {
            let host = records[i].exchange.as_str();
            assert(views[i as int].exchange == host@);
            match self.fresh_addresses(host, now) {
                None => {
                    assert(walk(views, hosts, now, i as int, target_views(found@))
                        == ResolveStepView::QueryHost(host@));
                    return ResolveStep::QueryHost(host.to_owned());
                },
                Some(addresses) => {
                    let ghost before = target_views(found@);
                    push_targets(&mut found, host, addresses);
                    assert(walk(views, hosts, now, i as int, before) == walk(
                        views,
                        hosts,
                        now,
                        i + 1,
                        target_views(found@),
                    ));
                },
            }
            i += 1;
        }
        if found.len() == 0 {
            ResolveStep::Unroutable { permanent: false }
        } else {
            ResolveStep::Targets(found)
        }
    }

    /// Takes the answer to an exchanger query and goes on resolving. An
    /// answer, also that there are no exchangers, is cached until `expires`;
    /// without an answer the domain cannot be routed for now.
    pub fn mx_resolved(
        &mut self,
        domain: &str,
        answer: DnsAnswer<Vec<MxRecord>>,
        now: u64,
        expires: u64,
    ) -> (r: ResolveStep)
        ensures
            final(self).host_cache() == old(self).host_cache(),
            match answer {
                DnsAnswer::Found(records) => final(self).mx_cache() == old(self).mx_cache().insert(
                    name_key(domain@),
                    MxEntryView { records: delivery_order(record_views(records@)), expires },
                ),
                DnsAnswer::Empty => final(self).mx_cache() == old(self).mx_cache().insert(
                    name_key(domain@),
                    MxEntryView { records: Seq::empty(), expires },
                ),
                DnsAnswer::Failed => final(self).mx_cache() == old(self).mx_cache(),
            },
            r@ == if answer is Failed {
                ResolveStepView::Unroutable { permanent: false }
            } else {
                spec_resolve(final(self).mx_cache(), final(self).host_cache(), domain@, now)
            },
    {
        match answer {
            DnsAnswer::Found(records) => {
                self.mx_add(domain, records, expires);
            },
            DnsAnswer::Empty => {
                let none: Vec<MxRecord> = Vec::new();
                proof {
                    let empty = record_views(none@);
                    assert(empty =~= Seq::<MxRecordView>::empty());
                    crate::routing::lemma_delivery_order_empty();
                }
                self.mx_add(domain, none, expires);
            },
            DnsAnswer::Failed => {
                return ResolveStep::Unroutable { permanent: false };
            },
        }
        self.resolve(domain, now)
    }

    /// Takes the answer to an address query for `host` and goes on resolving
    /// `domain`. An answer, also that there are no addresses, is cached until
    /// `expires`; without an answer the domain cannot be routed for now.
    pub fn host_resolved(
        &mut self,
        domain: &str,
        host: &str,
        answer: DnsAnswer<Vec<IpAddress>>,
        now: u64,
        expires: u64,
    ) -> (r: ResolveStep)
        ensures
            final(self).mx_cache() == old(self).mx_cache(),
            match answer {
                DnsAnswer::Found(addresses) => final(self).host_cache() == old(
                    self,
                ).host_cache().insert(
                    name_key(host@),
                    HostEntryView { addresses: addresses@, expires },
                ),
                DnsAnswer::Empty => final(self).host_cache() == old(self).host_cache().insert(
                    name_key(host@),
                    HostEntryView { addresses: Seq::empty(), expires },
                ),
                DnsAnswer::Failed => final(self).host_cache() == old(self).host_cache(),
            },
            r@ == if answer is Failed {
                ResolveStepView::Unroutable { permanent: false }
            } else {
                spec_resolve(final(self).mx_cache(), final(self).host_cache(), domain@, now)
            },
    {
        match answer {
            DnsAnswer::Found(addresses) => {
                self.host_add(host, addresses, expires);
            },
            DnsAnswer::Empty => {
                self.host_add(host, Vec::new(), expires);
            },
            DnsAnswer::Failed => {
                return ResolveStep::Unroutable { permanent: false };
            },
        }
        self.resolve(domain, now)
    }
}

/// A domain that is known to have neither exchangers nor addresses cannot be
/// routed, and the failure is permanent.
pub proof fn lemma_no_route_is_permanent(
    mx: Map<Seq<u8>, MxEntryView>,
    hosts: Map<Seq<u8>, HostEntryView>,
    domain: Seq<char>,
    now: u64,
)
    requires
        fresh_mx(mx, name_key(domain), now),
        mx[name_key(domain)].records.len() == 0,
        fresh_host(hosts, name_key(domain), now),
        hosts[name_key(domain)].addresses.len() == 0,
    ensures
        spec_resolve(mx, hosts, domain, now) == (ResolveStepView::Unroutable { permanent: true }),
        spec_unroutable(true) is PermanentFailure,
{
}

/// An answer is used until it expires and not after: once the exchanger
/// answer has expired, the exchangers are queried again.
pub proof fn lemma_expired_answer_is_queried(
    mx: Map<Seq<u8>, MxEntryView>,
    hosts: Map<Seq<u8>, HostEntryView>,
    domain: Seq<char>,
    now: u64,
)
    requires
        mx.contains_key(name_key(domain)) ==> mx[name_key(domain)].expires <= now,
    ensures
        spec_resolve(mx, hosts, domain, now) == ResolveStepView::QueryMx,
{
}

} // verus!
