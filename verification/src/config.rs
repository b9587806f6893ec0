//! Route configuration and the validated route table.

use brz_http_router::RouteTable as CompiledTable;
use vstd::prelude::*;

use crate::method::{Method, is_method};
use crate::router::{
    Entry, Route, RouteError, TemplateFault, compile_table, compiled_routes, copy_table,
    empty_table, entries, first_route_fault, routes_select, table_is_empty, table_len,
    table_matches, template_fault,
};
use crate::text::{decimal, decimal_text, texts};

verus! {

/// Route selection configuration.
#[derive(Clone, Debug)]
pub struct RoutesConfig {
    /// Requests matching any rule are dispatched to the selected service.
    pub routes: Vec<RouteRule>,
}

impl Default for RoutesConfig {
    fn default() -> (config: RoutesConfig)
        ensures
            config.routes@ == Seq::<RouteRule>::empty(),
    {
        RoutesConfig { routes: Vec::new() }
    }
}

/// One route dispatched to the selected service instead of the fallback origin.
/// A path containing `:name` or a terminal `*name` is a template; all other
/// paths are exact.
#[derive(Clone, Debug)]
pub struct RouteRule {
    /// Empty means every HTTP method.
    pub methods: Vec<String>,
    /// Absolute request path. Query parameters are not used for matching.
    pub path: String,
    /// Whether the gateway access log should include this route.
    pub log: bool,
}

/// Whether a route is logged where its rule does not say.
pub fn default_log() -> (log: bool)
    ensures
        log,
{
    true
}

/// A rule as a route table holds it.
pub open spec fn rule_entry(rule: RouteRule) -> Entry {
    (rule.path@, texts(rule.methods@))
}

/// The rules as a route table holds them.
pub open spec fn rule_entries(rules: Seq<RouteRule>) -> Seq<Entry> {
    Seq::new(rules.len(), |i: int| rule_entry(rules[i]))
}

/// The rules that are not logged.
pub open spec fn silent_rules(rules: Seq<RouteRule>) -> Seq<RouteRule>
    decreases rules.len(),
{
    if rules.len() == 0 {
        rules
    } else if rules.last().log {
        silent_rules(rules.drop_last())
    } else {
        silent_rules(rules.drop_last()).push(rules.last())
    }
}

/// The first text, from the one at `start` on, that is no method.
pub open spec fn first_invalid_method(list: Seq<String>, start: int) -> Option<Seq<char>>
    decreases list.len() - start,
{
    if start < 0 || start >= list.len() {
        None
    } else if is_method(list[start]@) {
        first_invalid_method(list, start + 1)
    } else {
        Some(list[start]@)
    }
}

/// The first rule, from the one at `start` on, with a text that is no method,
/// and that text.
pub open spec fn first_method_fault(rules: Seq<RouteRule>, start: int) -> Option<(int, Seq<char>)>
    decreases rules.len() - start,
{
    if start < 0 || start >= rules.len() {
        None
    } else {
        match first_invalid_method(rules[start].methods@, 0) {
            Some(text) => Some((start, text)),
            None => first_method_fault(rules, start + 1),
        }
    }
}

/// What can be wrong with a route configuration.
pub enum ConfigFault {
    InvalidMethod(int, Seq<char>),
    Route(TemplateFault, int, Seq<char>),
}

/// What is wrong with the rules, if anything. Methods are read before any
/// template is looked at.
pub open spec fn config_fault(rules: Seq<RouteRule>) -> Option<ConfigFault> {
    match first_method_fault(rules, 0) {
        Some((index, method)) => Some(ConfigFault::InvalidMethod(index, method)),
        None => match first_route_fault(rule_entries(rules), 0) {
            Some((fault, index, path)) => Some(ConfigFault::Route(fault, index, path)),
            None => None,
        },
    }
}

/// A route configuration that cannot be used.
#[derive(Debug)]
pub enum ConfigError {
    InvalidMethod { index: usize, method: String },
    Route(RouteError),
}

impl View for ConfigError {
    type V = ConfigFault;

    open spec fn view(&self) -> ConfigFault {
        match *self {
            ConfigError::InvalidMethod { index, method } => ConfigFault::InvalidMethod(
                index as int,
                method@,
            ),
            ConfigError::Route(error) => ConfigFault::Route(error@.0, error@.1, error@.2),
        }
    }
}

impl ConfigError {
    /// What the error says.
    pub open spec fn text(self) -> Seq<char> {
        match self {
            ConfigError::InvalidMethod { index, method } => "route "@ + decimal_text(index as nat)
                + " has invalid HTTP method: "@ + method@,
            ConfigError::Route(error) => error.text(),
        }
    }

    /// The error as a message for people.
    pub fn message(&self) -> (message: String)
        ensures
            message@ == self.text(),
    {
        match self {
            ConfigError::InvalidMethod { index, method } => {
                let number = decimal(*index as u128);
                "route ".to_owned().concat(number.as_str()).concat(
                    " has invalid HTTP method: ",
                ).concat(method.as_str())
            },
            ConfigError::Route(error) => error.message(),
        }
    }
}

/// Reads the methods of one rule; the first text that is none is the error.
fn read_methods(list: &Vec<String>) -> (result: Result<Vec<Method>, String>)
    ensures
        match result {
            Ok(methods) => {
                &&& first_invalid_method(list@, 0) is None
                &&& methods@.len() == list@.len()
                &&& forall|k: int|
                    0 <= k < methods@.len() ==> (#[trigger] methods@[k])@ == list@[k]@
            },
            Err(text) => first_invalid_method(list@, 0) == Some(text@),
        },
{
    let mut methods: Vec<Method> = Vec::new();
    let mut i: usize = 0;
    while i < list.len()
        invariant
            i <= list@.len(),
            methods@.len() == i,
            forall|k: int| 0 <= k < i ==> (#[trigger] methods@[k])@ == list@[k]@,
            first_invalid_method(list@, 0) == first_invalid_method(list@, i as int),
        decreases list@.len() - i,
    {
        match Method::parse(list[i].as_str()) {
            Some(method) => methods.push(method),
            None => return Err(list[i].clone()),
        }
        i += 1;
    }
    Ok(methods)
}

/// The same methods once more.
fn copy_methods(list: &Vec<Method>) -> (copy: Vec<Method>)
    ensures
        copy@.len() == list@.len(),
        forall|k: int| 0 <= k < copy@.len() ==> (#[trigger] copy@[k])@ == list@[k]@,
{
    let mut copy: Vec<Method> = Vec::new();
    let mut i: usize = 0;
    while i < list.len()
        invariant
            i <= list@.len(),
            copy@.len() == i,
            forall|k: int| 0 <= k < i ==> (#[trigger] copy@[k])@ == list@[k]@,
        decreases list@.len() - i,
    {
        copy.push(list[i].clone());
        i += 1;
    }
    copy
}

/// A route that was read from a rule is the rule's entry.
proof fn lemma_route_entry(route: Route, rule: RouteRule)
    requires
        route.path@ == rule.path@,
        route.methods@.len() == rule.methods@.len(),
        forall|k: int|
            0 <= k < route.methods@.len() ==> (#[trigger] route.methods@[k])@ == rule.methods@[k]@,
    ensures
        route.entry() == rule_entry(rule),
{
    assert forall|method: Seq<char>| texts(rule.methods@).contains(method) implies route.entry().1.contains(
    method) by {
        let k = choose|k: int|
            0 <= k < rule.methods@.len() && (#[trigger] rule.methods@[k])@ == method;
        assert(route.methods@[k]@ == method);
    }
    assert forall|method: Seq<char>| route.entry().1.contains(method) implies texts(
        rule.methods@,
    ).contains(method) by {
        let k = choose|k: int|
            0 <= k < route.methods@.len() && (#[trigger] route.methods@[k])@ == method;
        assert(rule.methods@[k]@ == method);
    }
    assert(route.entry().1 =~= texts(rule.methods@));
}

/// The rules have no faulty template exactly when no single one has.
pub proof fn lemma_no_route_fault(routes: Seq<Entry>, start: int)
    requires
        0 <= start,
    ensures
        (first_route_fault(routes, start) is None) == (forall|i: int|
            start <= i < routes.len() ==> template_fault((#[trigger] routes[i]).0) is None),
    decreases routes.len() - start,
{
    if start < routes.len() {
        lemma_no_route_fault(routes, start + 1);
        if first_route_fault(routes, start) is None {
            assert forall|i: int| start <= i < routes.len() implies template_fault(
                (#[trigger] routes[i]).0,
            ) is None by {
                if i != start {
                    assert(start + 1 <= i);
                }
            }
        }
    }
}

/// Every rule that is not logged is one of the rules.
pub proof fn lemma_silent_rules(rules: Seq<RouteRule>)
    ensures
        forall|i: int|
            0 <= i < silent_rules(rules).len() ==> rules.contains(#[trigger] silent_rules(rules)[i])
                && !silent_rules(rules)[i].log,
        forall|k: int|
            0 <= k < rules.len() && !(#[trigger] rules[k]).log ==> silent_rules(rules).contains(
                rules[k],
            ),
    decreases rules.len(),
{
    if rules.len() > 0 {
        let shorter = rules.drop_last();
        lemma_silent_rules(shorter);
        assert forall|i: int| 0 <= i < silent_rules(rules).len() implies rules.contains(
            #[trigger] silent_rules(rules)[i],
        ) && !silent_rules(rules)[i].log by {
            if i < silent_rules(shorter).len() {
                assert(shorter.contains(silent_rules(shorter)[i]));
                let k = choose|k: int| 0 <= k < shorter.len() && shorter[k] == silent_rules(shorter)[i];
                assert(rules[k] == silent_rules(rules)[i]);
            } else {
                assert(rules[rules.len() - 1] == silent_rules(rules)[i]);
            }
        }
        assert forall|k: int| 0 <= k < rules.len() && !(#[trigger] rules[k]).log implies silent_rules(
            rules,
        ).contains(rules[k]) by {
            if k < shorter.len() {
                assert(shorter[k] == rules[k]);
                let i = choose|i: int|
                    0 <= i < silent_rules(shorter).len() && silent_rules(shorter)[i] == rules[k];
                assert(silent_rules(rules)[i] == rules[k]);
            } else {
                assert(silent_rules(rules)[silent_rules(rules).len() - 1] == rules[k]);
            }
        }
    }
}

/// Validated route table shared by gateway connections.
#[derive(Debug)]
pub struct RouteTable {
    matcher: CompiledTable,
    silent: CompiledTable,
}

impl Default for RouteTable {
    fn default() -> (table: RouteTable)
        ensures
            table.routes() == Seq::<Entry>::empty(),
            table.silent_routes() == Seq::<Entry>::empty(),
    {
        RouteTable { matcher: empty_table(), silent: empty_table() }
    }
}

impl Clone for RouteTable {
    fn clone(&self) -> (table: RouteTable)
        ensures
            table.routes() == self.routes(),
            table.silent_routes() == self.silent_routes(),
    {
        RouteTable { matcher: copy_table(&self.matcher), silent: copy_table(&self.silent) }
    }
}

impl RouteTable {
    /// The routes of the table.
    pub closed spec fn routes(self) -> Seq<Entry> {
        compiled_routes(self.matcher)
    }

    /// The routes that are not logged.
    pub closed spec fn silent_routes(self) -> Seq<Entry> {
        compiled_routes(self.silent)
    }

    /// The table without routes.
    #[must_use]
    pub fn empty() -> (table: RouteTable)
        ensures
            table.routes() == Seq::<Entry>::empty(),
            table.silent_routes() == Seq::<Entry>::empty(),
    {
        RouteTable::default()
    }

    /// Validates and compiles route configuration. The error names an invalid
    /// method or, where all methods are valid, a malformed route template.
    pub fn compile(config: RoutesConfig) -> (result: Result<RouteTable, ConfigError>)
        ensures
            match result {
                Ok(table) => {
                    &&& config_fault(config.routes@) is None
                    &&& table.routes() == rule_entries(config.routes@)
                    &&& table.silent_routes() == rule_entries(silent_rules(config.routes@))
                },
                Err(error) => config_fault(config.routes@) == Some(error@),
            },
    {
        let rules = &config.routes;
        let mut routes: Vec<Route> = Vec::new();
        let mut silent: Vec<Route> = Vec::new();
        let mut i: usize = 0;
        assert(entries(routes@) =~= rule_entries(rules@.take(0)));
        assert(entries(silent@) =~= rule_entries(silent_rules(rules@.take(0))));
        while i < rules.len()
            invariant
                i <= rules@.len(),
                rules@ == config.routes@,
                entries(routes@) == rule_entries(rules@.take(i as int)),
                entries(silent@) == rule_entries(silent_rules(rules@.take(i as int))),
                first_method_fault(rules@, 0) == first_method_fault(rules@, i as int),
            decreases rules@.len() - i,
        {
            let rule = &rules[i];
            let methods = match read_methods(&rule.methods) {
                Ok(methods) => methods,
                Err(method) => return Err(ConfigError::InvalidMethod { index: i, method }),
            };
            let ghost done = rules@.take(i as int);
            let ghost next = rules@.take(i + 1);
            assert(next.drop_last() =~= done);
            if !rule.log {
                let route = Route { path: rule.path.clone(), methods: copy_methods(&methods) };
                proof {
                    lemma_route_entry(route, *rule);
                }
                let ghost before = silent@;
                silent.push(route);
                assert(entries(silent@) =~= entries(before).push(rule_entry(*rule)));
                assert(rule_entries(silent_rules(next)) =~= rule_entries(silent_rules(done)).push(
                    rule_entry(*rule),
                ));
            }
            let route = Route { path: rule.path.clone(), methods };
            proof {
                lemma_route_entry(route, *rule);
            }
            let ghost before = routes@;
            routes.push(route);
            assert(entries(routes@) =~= entries(before).push(rule_entry(*rule)));
            assert(rule_entries(next) =~= rule_entries(done).push(rule_entry(*rule)));
            i += 1;
        }
        assert(rules@.take(i as int) =~= rules@);
        let matcher = match compile_table(routes) {
            Ok(matcher) => matcher,
            Err(error) => return Err(ConfigError::Route(error)),
        };
        proof {
            let all = rule_entries(rules@);
            let quiet = rule_entries(silent_rules(rules@));
            lemma_silent_rules(rules@);
            lemma_no_route_fault(all, 0);
            lemma_no_route_fault(quiet, 0);
            assert forall|k: int| 0 <= k < quiet.len() implies template_fault(
                (#[trigger] quiet[k]).0,
            ) is None by {
                let rule = silent_rules(rules@)[k];
                let j = choose|j: int| 0 <= j < rules@.len() && rules@[j] == rule;
                assert(all[j] == quiet[k]);
            }
        }
        match compile_table(silent) {
            Ok(silent) => Ok(RouteTable { matcher, silent }),
            Err(error) => Err(ConfigError::Route(error)),
        }
    }

    /// Whether the table has no routes.
    #[must_use]
    pub fn is_empty(&self) -> (empty: bool)
        ensures
            empty == (self.routes().len() == 0),
    {
        table_is_empty(&self.matcher)
    }

    /// The number of routes.
    #[must_use]
    pub fn len(&self) -> (len: usize)
        ensures
            len == self.routes().len(),
    {
        table_len(&self.matcher)
    }

    /// Whether a route selects a request.
    #[must_use]
    pub fn matches(&self, method: &Method, path: &str) -> (selected: bool)
        ensures
            selected == routes_select(self.routes(), method@, path@),
    {
        table_matches(&self.matcher, method, path)
    }

    /// Whether a request should be written to the gateway's access log.
    #[must_use]
    pub fn logs(&self, method: &Method, path: &str) -> (logged: bool)
        ensures
            logged == !routes_select(self.silent_routes(), method@, path@),
    {
        !table_matches(&self.silent, method, path)
    }
}

} // verus!
