//! Route selection: what route templates mean, and the compiled route tables.

use brz_http_router::RouteTable as CompiledTable;
use vstd::prelude::*;
use vstd::utf8::encode_utf8;

use crate::method::Method;
use crate::text::{decimal, decimal_text};
use crate::tokens::split;

verus! {

/// One route as a table holds it: its path template, and the methods that it
/// selects. An empty set of methods selects every method.
pub type Entry = (Seq<char>, Set<Seq<char>>);

/// What can be wrong with a path template.
pub enum TemplateFault {
    RelativePath,
    EmptyParameter,
    InvalidCatchAll,
}

/// The segments of an absolute path: what stands between its slashes, after the
/// one at its start.
pub open spec fn segments(path: Seq<char>) -> Seq<Seq<char>> {
    split(path.skip(1), '/')
}

/// A segment that stands for one non-empty segment of a path.
pub open spec fn is_parameter(segment: Seq<char>) -> bool {
    segment.len() > 0 && segment[0] == ':'
}

/// A segment that stands for all remaining segments of a path.
pub open spec fn is_catch_all(segment: Seq<char>) -> bool {
    segment.len() > 0 && segment[0] == '*'
}

/// What is wrong with a segment of a template: a parameter needs a name; a
/// catch-all needs a name and the last place.
pub open spec fn segment_fault(segment: Seq<char>, is_last: bool) -> Option<TemplateFault> {
    if is_parameter(segment) && segment.len() == 1 {
        Some(TemplateFault::EmptyParameter)
    } else if is_catch_all(segment) && (segment.len() == 1 || !is_last) {
        Some(TemplateFault::InvalidCatchAll)
    } else {
        None
    }
}

/// The fault of the first faulty segment, from the one at `start` on.
pub open spec fn first_segment_fault(all: Seq<Seq<char>>, start: int) -> Option<TemplateFault>
    decreases all.len() - start,
{
    if start < 0 || start >= all.len() {
        None
    } else {
        match segment_fault(all[start], start + 1 == all.len()) {
            Some(fault) => Some(fault),
            None => first_segment_fault(all, start + 1),
        }
    }
}

/// What is wrong with a path template, if anything.
pub open spec fn template_fault(path: Seq<char>) -> Option<TemplateFault> {
    if path.len() == 0 || path[0] != '/' {
        Some(TemplateFault::RelativePath)
    } else {
        first_segment_fault(segments(path), 0)
    }
}

/// The fault of the first faulty route, from the one at `start` on, with the
/// route's place and its template.
pub open spec fn first_route_fault(routes: Seq<Entry>, start: int) -> Option<
    (TemplateFault, int, Seq<char>),
>
    decreases routes.len() - start,
{
    if start < 0 || start >= routes.len() {
        None
    } else {
        match template_fault(routes[start].0) {
            Some(fault) => Some((fault, start, routes[start].0)),
            None => first_route_fault(routes, start + 1),
        }
    }
}

/// Whether a template holds a parameter or a catch-all; otherwise it is the one
/// path that it selects.
pub open spec fn is_pattern(template: Seq<char>) -> bool {
    exists|i: int|
        0 <= i < segments(template).len() && (is_parameter(#[trigger] segments(template)[i])
            || is_catch_all(segments(template)[i]))
}

/// Whether the segments of a path are those that a template's segments ask for.
pub open spec fn segments_select(expected: Seq<Seq<char>>, actual: Seq<Seq<char>>) -> bool {
    let fixed = if is_catch_all(expected.last()) {
        expected.len() - 1
    } else {
        expected.len() as int
    };
    &&& if fixed < expected.len() {
        actual.len() >= expected.len()
    } else {
        actual.len() == expected.len()
    }
    &&& forall|i: int|
        0 <= i < fixed ==> if is_parameter(#[trigger] expected[i]) {
            actual[i].len() > 0
        } else {
            actual[i] == expected[i]
        }
}

/// Whether a well-formed template selects a path. The empty path counts as one
/// empty segment, and a path of more than `u32::MAX` bytes has no segments.
pub open spec fn template_selects(template: Seq<char>, path: Seq<char>) -> bool {
    if !is_pattern(template) {
        path == template
    } else if path.len() == 0 {
        segments_select(segments(template), seq![path])
    } else {
        &&& path[0] == '/'
        &&& encode_utf8(path).len() <= u32::MAX
        &&& segments_select(segments(template), segments(path))
    }
}

/// Whether a route selects a request.
pub open spec fn route_selects(route: Entry, method: Seq<char>, path: Seq<char>) -> bool {
    &&& route.1.is_empty() || route.1.contains(method)
    &&& template_selects(route.0, path)
}

/// Whether one of the routes selects a request.
pub open spec fn routes_select(routes: Seq<Entry>, method: Seq<char>, path: Seq<char>) -> bool {
    exists|i: int| 0 <= i < routes.len() && route_selects(#[trigger] routes[i], method, path)
}

/// A route with a malformed path template.
#[derive(Debug)]
pub enum RouteError {
    RelativePath { index: usize, path: String },
    EmptyParameter { index: usize, path: String },
    InvalidCatchAll { index: usize, path: String },
}

impl View for RouteError {
    type V = (TemplateFault, int, Seq<char>);

    open spec fn view(&self) -> Self::V {
        match *self {
            RouteError::RelativePath { index, path } => (
                TemplateFault::RelativePath,
                index as int,
                path@,
            ),
            RouteError::EmptyParameter { index, path } => (
                TemplateFault::EmptyParameter,
                index as int,
                path@,
            ),
            RouteError::InvalidCatchAll { index, path } => (
                TemplateFault::InvalidCatchAll,
                index as int,
                path@,
            ),
        }
    }
}

impl RouteError {
    /// What the error says.
    pub open spec fn text(self) -> Seq<char> {
        let (fault, index, path) = self@;
        "route "@ + decimal_text(index as nat) + (match fault {
            TemplateFault::RelativePath => " path must start with '/': "@,
            TemplateFault::EmptyParameter => " has an empty parameter segment: "@,
            TemplateFault::InvalidCatchAll => " has an invalid catch-all segment: "@,
        }) + path
    }

    /// The error as a message for people.
    pub fn message(&self) -> (message: String)
        ensures
            message@ == self.text(),
    {
        let (index, problem, path) = match self {
            RouteError::RelativePath { index, path } => (
                *index,
                " path must start with '/': ",
                path,
            ),
            RouteError::EmptyParameter { index, path } => (
                *index,
                " has an empty parameter segment: ",
                path,
            ),
            RouteError::InvalidCatchAll { index, path } => (
                *index,
                " has an invalid catch-all segment: ",
                path,
            ),
        };
        let number = decimal(index as u128);
        "route ".to_owned().concat(number.as_str()).concat(problem).concat(path.as_str())
    }
}

/// A route with its methods read, ready to be compiled.
pub(crate) struct Route {
    pub(crate) path: String,
    pub(crate) methods: Vec<Method>,
}

impl Route {
    /// The route as a table holds it.
    pub(crate) open spec fn entry(self) -> Entry {
        (
            self.path@,
            Set::new(
                |method: Seq<char>|
                    exists|k: int|
                        0 <= k < self.methods@.len() && (#[trigger] self.methods@[k])@ == method,
            ),
        )
    }
}

/// The routes as a table holds them.
pub(crate) open spec fn entries(routes: Seq<Route>) -> Seq<Entry> {
    Seq::new(routes.len(), |i: int| routes[i].entry())
}

/// Declares `brz_http_router::RouteTable`.
#[verifier::external_type_specification]
#[verifier::external_body]
pub struct ExRouteTable(CompiledTable);

/// The routes that a compiled table holds, in the order in which they were given.
pub uninterp spec fn compiled_routes(table: CompiledTable) -> Seq<
    (Seq<char>, Set<Seq<char>>),
>;

/// Calls `brz_http_router::RouteTable::default`, the table without routes.
#[verifier::external_body]
pub(crate) fn empty_table() -> (table: CompiledTable)
    ensures
        compiled_routes(table) == Seq::<Entry>::empty(),
{
    CompiledTable::default()
}

/// Calls `brz_http_router::RouteTable::compile`. It gives a table of all the
/// routes when every template is well formed, and otherwise the fault of the
/// first route that is not. A `Method` always is an `http::Method`.
#[verifier::external_body]
pub(crate) fn compile_table(routes: Vec<Route>) -> (result: Result<
    CompiledTable,
    RouteError,
>)
    ensures
        match result {
            Ok(table) => first_route_fault(entries(routes@), 0) is None && compiled_routes(table)
                == entries(routes@),
            Err(error) => first_route_fault(entries(routes@), 0) == Some(error@),
        },
{
    let read = |method: &Method| http::Method::from_bytes(method.text.as_bytes()).unwrap();
    let rule = |route: Route| {
        brz_http_router::RouteRule::new(route.path, route.methods.iter().map(read).collect())
    };
    let rules: Vec<brz_http_router::RouteRule> = routes.into_iter().map(rule).collect();
    CompiledTable::compile(rules).map_err(|error| match error {
        brz_http_router::RouteError::RelativePath { index, path } =>
            RouteError::RelativePath { index, path },
        brz_http_router::RouteError::EmptyParameter { index, path } =>
            RouteError::EmptyParameter { index, path },
        brz_http_router::RouteError::InvalidCatchAll { index, path } =>
            RouteError::InvalidCatchAll { index, path },
    })
}

/// Calls `brz_http_router::RouteTable::clone`: another table of the same routes.
#[verifier::external_body]
pub(crate) fn copy_table(table: &CompiledTable) -> (copy: CompiledTable)
    ensures
        compiled_routes(copy) == compiled_routes(*table),
{
    table.clone()
}

/// Calls `brz_http_router::RouteTable::is_empty`: whether there is no route.
#[verifier::external_body]
pub(crate) fn table_is_empty(table: &CompiledTable) -> (empty: bool)
    ensures
        empty == (compiled_routes(*table).len() == 0),
{
    table.is_empty()
}

/// Calls `brz_http_router::RouteTable::len`: the number of routes.
#[verifier::external_body]
pub(crate) fn table_len(table: &CompiledTable) -> (len: usize)
    ensures
        len == compiled_routes(*table).len(),
{
    table.len()
}

/// Calls `brz_http_router::RouteTable::matches`: whether one of the routes
/// selects the method and path. A `Method` always is an `http::Method`.
#[verifier::external_body]
pub(crate) fn table_matches(
    table: &CompiledTable,
    method: &Method,
    path: &str,
) -> (selected: bool)
    ensures
        selected == routes_select(compiled_routes(*table), method@, path@),
{
    table.matches(&http::Method::from_bytes(method.text.as_bytes()).unwrap(), path)
}

} // verus!
