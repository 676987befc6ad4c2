//! The plugins that mail-filter scripts can call: under which name and
//! identifier each is registered, and which one an identifier runs.

use vstd::prelude::*;

verus! {

#[verifier::external_type_specification]
#[verifier::external_body]
pub struct ExFunctionMap(sieve::FunctionMap);

/// The functions that a map makes known to the script compiler: for each
/// name, the external identifier and the number of arguments it was
/// registered with.
pub uninterp spec fn external_functions(map: sieve::FunctionMap) -> Map<Seq<char>, (u32, u32)>;

/// Calls `sieve::FunctionMap::set_external_function`, which stores the
/// identifier and the argument count under the name, replacing what the name
/// stood for. The crate subtracts the identifier from its highest external
/// identifier, so larger ones are left out.
#[verifier::external_body]
fn set_external_function(map: &mut sieve::FunctionMap, name: &str, id: u32, num_args: u32)
    requires
        id <= 0xFFFF_FFFD,
    ensures
        external_functions(*final(map)) == external_functions(*old(map)).insert(
            name@,
            (id, num_args),
        ),
{
    map.set_external_function(name, id, num_args);
}

/// A plugin that scripts can call.
#[derive(Clone, Copy, Debug, PartialEq, Eq, Structural)]
pub enum Plugin {
    Query,
    Exec,
    Lookup,
    LookupMap,
    DnsQuery,
    DnsExists,
    HttpHeader,
}

/// How many plugins there are; also the identifier of `print` in test mode.
pub const PLUGIN_COUNT: u32 = 7;

/// The plugin registered under an identifier.
pub open spec fn plugin_at(id: u32) -> Option<Plugin> {
    if id == 0 {
        Some(Plugin::Query)
    } else if id == 1 {
        Some(Plugin::Exec)
    } else if id == 2 {
        Some(Plugin::Lookup)
    } else if id == 3 {
        Some(Plugin::LookupMap)
    } else if id == 4 {
        Some(Plugin::DnsQuery)
    } else if id == 5 {
        Some(Plugin::DnsExists)
    } else if id == 6 {
        Some(Plugin::HttpHeader)
    } else {
        None
    }
}

impl Plugin {
    /// The identifier that the plugin is registered under.
    pub open spec fn spec_id(self) -> u32 {
        match self {
            Plugin::Query => 0,
            Plugin::Exec => 1,
            Plugin::Lookup => 2,
            Plugin::LookupMap => 3,
            Plugin::DnsQuery => 4,
            Plugin::DnsExists => 5,
            Plugin::HttpHeader => 6,
        }
    }

    /// The name that scripts call the plugin by.
    pub open spec fn spec_name(self) -> Seq<char> {
        match self {
            Plugin::Query => "query"@,
            Plugin::Exec => "exec"@,
            Plugin::Lookup => "lookup"@,
            Plugin::LookupMap => "lookup_map"@,
            Plugin::DnsQuery => "dns_query"@,
            Plugin::DnsExists => "dns_exists"@,
            Plugin::HttpHeader => "http_header"@,
        }
    }

    /// The number of arguments that the plugin takes.
    pub open spec fn spec_args(self) -> u32 {
        match self {
            Plugin::Query => 3,
            Plugin::Exec => 2,
            Plugin::Lookup => 2,
            Plugin::LookupMap => 2,
            Plugin::DnsQuery => 2,
            Plugin::DnsExists => 2,
            Plugin::HttpHeader => 4,
        }
    }

    pub fn name(self) -> (r: &'static str)
        ensures
            r@ == self.spec_name(),
    {
        match self {
            Plugin::Query => "query",
            Plugin::Exec => "exec",
            Plugin::Lookup => "lookup",
            Plugin::LookupMap => "lookup_map",
            Plugin::DnsQuery => "dns_query",
            Plugin::DnsExists => "dns_exists",
            Plugin::HttpHeader => "http_header",
        }
    }

    pub fn args(self) -> (r: u32)
        ensures
            r == self.spec_args(),
    {
        match self {
            Plugin::Query => 3,
            Plugin::HttpHeader => 4,
            _ => 2,
        }
    }

    /// Registers the plugin under an identifier.
    pub fn register(self, plugin_id: u32, map: &mut sieve::FunctionMap)
        requires
            plugin_id <= 0xFFFF_FFFD,
        ensures
            external_functions(*final(map)) == external_functions(*old(map)).insert(
                self.spec_name(),
                (plugin_id, self.spec_args()),
            ),
    {
        set_external_function(map, self.name(), plugin_id, self.args());
    }
}

/// The plugin registered under an identifier, if there is one.
pub fn plugin_by_id(id: u32) -> (r: Option<Plugin>)
    ensures
        r == plugin_at(id),
{
    if id == 0 {
        Some(Plugin::Query)
    } else if id == 1 {
        Some(Plugin::Exec)
    } else if id == 2 {
        Some(Plugin::Lookup)
    } else if id == 3 {
        Some(Plugin::LookupMap)
    } else if id == 4 {
        Some(Plugin::DnsQuery)
    } else if id == 5 {
        Some(Plugin::DnsExists)
    } else if id == 6 {
        Some(Plugin::HttpHeader)
    } else {
        None
    }
}

/// A table after the first `count` plugins were registered in it, each under
/// its position.
pub open spec fn registered(base: Map<Seq<char>, (u32, u32)>, count: nat) -> Map<
    Seq<char>,
    (u32, u32),
>
    decreases count,
{
    if count == 0 {
        base
    } else {
        let id = (count - 1) as u32;
        match plugin_at(id) {
            Some(plugin) => registered(base, (count - 1) as nat).insert(
                plugin.spec_name(),
                (id, plugin.spec_args()),
            ),
            None => registered(base, (count - 1) as nat),
        }
    }
}

/// Function tables that the plugins can be registered in.
pub trait RegisterSievePlugins: Sized {
    /// The table's entries.
    spec fn functions(self) -> Map<Seq<char>, (u32, u32)>;

    /// Registers every plugin under its identifier.
    fn register_plugins(self) -> (r: Self)
        ensures
            r.functions() == registered(self.functions(), PLUGIN_COUNT as nat),
    ;
}

impl RegisterSievePlugins for sieve::FunctionMap {
    open spec fn functions(self) -> Map<Seq<char>, (u32, u32)> {
        external_functions(self)
    }

    fn register_plugins(self) -> (r: Self) {
        let mut map = self;
        let mut i: u32 = 0;
        while i < PLUGIN_COUNT
            invariant
                i <= PLUGIN_COUNT,
                external_functions(map) == registered(external_functions(self), i as nat),
            decreases PLUGIN_COUNT - i,
        {
            match plugin_by_id(i) {
                Some(plugin) => {
                    plugin.register(i, &mut map);
                },
                None => {},
            }
            i += 1;
        }
        map
    }
}

/// Registers `print`, which test runs add after the plugins.
pub fn register_print(map: sieve::FunctionMap) -> (r: sieve::FunctionMap)
    ensures
        external_functions(r) == external_functions(map).insert("print"@, (PLUGIN_COUNT, 1u32)),
{
    let mut map = map;
    set_external_function(&mut map, "print", PLUGIN_COUNT, 1);
    map
}

/// The plugins have pairwise different names.
pub proof fn lemma_plugin_names_distinct(a: Plugin, b: Plugin)
    ensures
        a.spec_name() == b.spec_name() ==> a == b,
{
    reveal_strlit("query");
    reveal_strlit("exec");
    reveal_strlit("lookup");
    reveal_strlit("lookup_map");
    reveal_strlit("dns_query");
    reveal_strlit("dns_exists");
    reveal_strlit("http_header");
    assert("query"@.len() == 5);
    assert("exec"@.len() == 4);
    assert("lookup"@.len() == 6);
    assert("lookup_map"@.len() == 10 && "lookup_map"@[0] == 'l');
    assert("dns_query"@.len() == 9);
    assert("dns_exists"@.len() == 10 && "dns_exists"@[0] == 'd');
    assert("http_header"@.len() == 11);
}

/// Registration and dispatch agree: after registration every plugin's name
/// stands for the plugin's identifier and argument count, that identifier
/// runs the plugin, and no other name has changed.
pub proof fn lemma_registered_plugins(base: Map<Seq<char>, (u32, u32)>, plugin: Plugin)
    ensures
        registered(base, PLUGIN_COUNT as nat).contains_key(plugin.spec_name()),
        registered(base, PLUGIN_COUNT as nat)[plugin.spec_name()] == (
            plugin.spec_id(),
            plugin.spec_args(),
        ),
        plugin_at(plugin.spec_id()) == Some(plugin),
        forall|name: Seq<char>|
            (forall|p: Plugin| name != p.spec_name()) ==> (registered(
                base,
                PLUGIN_COUNT as nat,
            ).contains_key(name) == base.contains_key(name) && (base.contains_key(name)
                ==> registered(base, PLUGIN_COUNT as nat)[name] == base[name])),
{
    reveal_with_fuel(registered, 8);
    lemma_plugin_names_distinct(plugin, Plugin::Query);
    lemma_plugin_names_distinct(plugin, Plugin::Exec);
    lemma_plugin_names_distinct(plugin, Plugin::Lookup);
    lemma_plugin_names_distinct(plugin, Plugin::LookupMap);
    lemma_plugin_names_distinct(plugin, Plugin::DnsQuery);
    lemma_plugin_names_distinct(plugin, Plugin::DnsExists);
    lemma_plugin_names_distinct(plugin, Plugin::HttpHeader);
    assert forall|name: Seq<char>| (forall|p: Plugin| name != p.spec_name()) implies (registered(
        base,
        PLUGIN_COUNT as nat,
    ).contains_key(name) == base.contains_key(name) && (base.contains_key(name) ==> registered(
        base,
        PLUGIN_COUNT as nat,
    )[name] == base[name])) by {
        assert(name != Plugin::Query.spec_name());
        assert(name != Plugin::Exec.spec_name());
        assert(name != Plugin::Lookup.spec_name());
        assert(name != Plugin::LookupMap.spec_name());
        assert(name != Plugin::DnsQuery.spec_name());
        assert(name != Plugin::DnsExists.spec_name());
        assert(name != Plugin::HttpHeader.spec_name());
    }
}

/// What a plugin call has at hand, as far as the choice of the plugin reads it.
pub struct PluginContext {
    pub arguments: Vec<String>,
}

/// The script engine's settings that plugin calls depend on.
pub struct SMTP {
    /// Whether `print` is available to scripts.
    pub test_mode: bool,
}

/// What a plugin call comes to.
#[derive(Debug, PartialEq, Eq)]
pub enum PluginRun {
    /// The caller runs the plugin and hands its value to the script.
    Call(Plugin),
    /// The caller prints the line and hands `true` to the script.
    Print(String),
    /// No plugin has the identifier: the script gets the empty value.
    Default,
}

pub enum PluginRunView {
    Call(Plugin),
    Print(Seq<char>),
    Default,
}

impl View for PluginRun {
    type V = PluginRunView;

    open spec fn view(&self) -> PluginRunView {
        match self {
            PluginRun::Call(plugin) => PluginRunView::Call(*plugin),
            PluginRun::Print(line) => PluginRunView::Print(line@),
            PluginRun::Default => PluginRunView::Default,
        }
    }
}

/// What a call of the identifier comes to: in test mode the identifier after
/// the last plugin prints the first argument; otherwise the identifier's
/// plugin runs, or none does.
pub open spec fn spec_run(test_mode: bool, id: u32, arguments: Seq<Seq<char>>) -> PluginRunView {
    if test_mode && id == PLUGIN_COUNT {
        PluginRunView::Print(arguments[0])
    } else {
        match plugin_at(id) {
            Some(plugin) => PluginRunView::Call(plugin),
            None => PluginRunView::Default,
        }
    }
}

impl SMTP {
    /// Chooses what a script's call of an identifier does.
    pub fn run_plugin_blocking(&self, id: u32, ctx: PluginContext) -> (r: PluginRun)
        requires
            self.test_mode && id == PLUGIN_COUNT ==> ctx.arguments@.len() > 0,
        ensures
            r@ == spec_run(self.test_mode, id, crate::text::names(ctx.arguments@)),
    {
        if self.test_mode && id == PLUGIN_COUNT {
            return test_print(ctx);
        }
        match plugin_by_id(id) {
            Some(plugin) => PluginRun::Call(plugin),
            None => PluginRun::Default,
        }
    }
}

/// The line that `print` writes: its first argument.
pub fn test_print(ctx: PluginContext) -> (r: PluginRun)
    requires
        ctx.arguments@.len() > 0,
    ensures
        r@ == PluginRunView::Print(ctx.arguments@[0]@),
{
    PluginRun::Print(ctx.arguments[0].clone())
}

} // verus!
