//! Dispatching requests between a service and the fallback origin.

use http::HeaderMap;
use vstd::prelude::*;
use vstd::utf8::decode_utf8;

use crate::config::RouteTable;
use crate::headers::{Contents, first_field, get, header_contents, header_value_to_str, is_visible};
use crate::method::Method;
use crate::proxy::{
    ErrorReply, FallbackProxy, ProxyConfigError, error_response, is_http_origin,
    is_origin_fault, lemma_known_names,
};
use crate::router::{Entry, route_selects, routes_select};
use crate::text::{decimal, decimal_text, parse_u64, parsed_u64};
use crate::uri::UriParts;

verus! {

/// Placeholder service useful while the configured route table is empty.
#[derive(Clone, Copy, Debug, Default)]
pub struct RejectMatched;

impl RejectMatched {
    /// The reply to every request.
    pub fn call(&self) -> (reply: ErrorReply)
        ensures
            reply.says(501, "matched route has no service implementation"@),
    {
        error_response(501, "matched route has no service implementation")
    }
}

/// A matched service that forwards requests to another HTTP origin.
#[derive(Debug)]
pub struct OriginService {
    proxy: FallbackProxy,
}

impl OriginService {
    /// The proxy to the origin.
    pub closed spec fn spec_proxy(self) -> FallbackProxy {
        self.proxy
    }

    /// Creates a service backed by an origin-only HTTP URL.
    pub fn new(origin: &UriParts) -> (result: Result<OriginService, ProxyConfigError>)
        ensures
            match result {
                Ok(service) => {
                    &&& is_http_origin(*origin)
                    &&& service.spec_proxy().scheme() == "http"@
                    &&& service.spec_proxy().authority() == origin.authority.unwrap()@
                },
                Err(error) => !is_http_origin(*origin) && is_origin_fault(*origin, error),
            },
    {
        match FallbackProxy::new(origin) {
            Ok(proxy) => Ok(OriginService { proxy }),
            Err(error) => Err(error),
        }
    }

    /// The proxy that every request of this service goes through.
    pub fn proxy(&self) -> (proxy: &FallbackProxy)
        ensures
            *proxy == self.spec_proxy(),
    {
        &self.proxy
    }
}

impl Clone for OriginService {
    fn clone(&self) -> (service: OriginService)
        ensures
            service.spec_proxy().scheme() == self.spec_proxy().scheme(),
            service.spec_proxy().authority() == self.spec_proxy().authority(),
    {
        OriginService { proxy: self.proxy.clone() }
    }
}

/// Where a request goes.
#[derive(Clone, Copy, Debug, PartialEq, Eq, Structural)]
pub enum Destination {
    /// To the service that the routes select requests for.
    Matched,
    /// To the fallback origin.
    Fallback,
}

/// Where a request goes: to the service when one of the routes selects it.
pub open spec fn destination(routes: Seq<Entry>, method: Seq<char>, path: Seq<char>) -> Destination {
    if routes_select(routes, method, path) {
        Destination::Matched
    } else {
        Destination::Fallback
    }
}

/// What to do with a request.
#[derive(Clone, Copy, Debug)]
pub struct Plan {
    pub destination: Destination,
    /// Whether the gateway's access log gets a line for it.
    pub gateway_log: bool,
    /// Whether the fallback log gets a line for it.
    pub fallback_log: bool,
}

/// Dispatches configured routes to one service and all others to an HTTP origin.
#[derive(Debug)]
pub struct Gateway<S> {
    routes: RouteTable,
    matched: S,
    fallback: FallbackProxy,
}

impl<S: Clone> Clone for Gateway<S> {
    fn clone(&self) -> (gateway: Gateway<S>)
        ensures
            gateway.spec_routes().routes() == self.spec_routes().routes(),
            gateway.spec_routes().silent_routes() == self.spec_routes().silent_routes(),
            cloned(self.spec_matched(), gateway.spec_matched()),
            gateway.spec_fallback().scheme() == self.spec_fallback().scheme(),
            gateway.spec_fallback().authority() == self.spec_fallback().authority(),
    {
        Gateway {
            routes: self.routes.clone(),
            matched: self.matched.clone(),
            fallback: self.fallback.clone(),
        }
    }
}

impl<S> Gateway<S> {
    /// The routes that select requests for the service.
    pub closed spec fn spec_routes(self) -> RouteTable {
        self.routes
    }

    /// The service.
    pub closed spec fn spec_matched(self) -> S {
        self.matched
    }

    /// The proxy to the fallback origin.
    pub closed spec fn spec_fallback(self) -> FallbackProxy {
        self.fallback
    }

    /// Builds a gateway with a validated fallback origin URL.
    pub fn new(routes: RouteTable, matched: S, fallback_origin: &UriParts) -> (result: Result<
        Gateway<S>,
        ProxyConfigError,
    >)
        ensures
            match result {
                Ok(gateway) => {
                    &&& is_http_origin(*fallback_origin)
                    &&& gateway.spec_routes() == routes
                    &&& gateway.spec_matched() == matched
                    &&& gateway.spec_fallback().scheme() == "http"@
                    &&& gateway.spec_fallback().authority() == fallback_origin.authority.unwrap()@
                },
                Err(error) => !is_http_origin(*fallback_origin) && is_origin_fault(
                    *fallback_origin,
                    error,
                ),
            },
    {
        match FallbackProxy::new(fallback_origin) {
            Ok(fallback) => Ok(Gateway { routes, matched, fallback }),
            Err(error) => Err(error),
        }
    }

    /// The routes that select requests for the service.
    #[must_use]
    pub fn routes(&self) -> (routes: &RouteTable)
        ensures
            *routes == self.spec_routes(),
    {
        &self.routes
    }

    /// The service that gets the selected requests.
    #[must_use]
    pub fn matched(&self) -> (matched: &S)
        ensures
            *matched == self.spec_matched(),
    {
        &self.matched
    }

    /// The proxy that gets all other requests.
    #[must_use]
    pub fn fallback(&self) -> (fallback: &FallbackProxy)
        ensures
            *fallback == self.spec_fallback(),
    {
        &self.fallback
    }

    /// Decides where a request goes and which logs get a line for it. The access
    /// log leaves out the requests of routes that are not logged; the fallback
    /// log holds exactly the requests that go to the fallback origin.
    pub fn handle(&self, method: &Method, path: &str) -> (plan: Plan)
        ensures
            plan.destination == destination(self.spec_routes().routes(), method@, path@),
            plan.destination == Destination::Matched <==> exists|i: int|
                0 <= i < self.spec_routes().routes().len() && route_selects(
                    #[trigger] self.spec_routes().routes()[i],
                    method@,
                    path@,
                ),
            plan.gateway_log == !routes_select(
                self.spec_routes().silent_routes(),
                method@,
                path@,
            ),
            plan.fallback_log == (plan.destination == Destination::Fallback),
    {
        let gateway_log = self.routes.logs(method, path);
        if self.routes.matches(method, path) {
            Plan { destination: Destination::Matched, gateway_log, fallback_log: false }
        } else {
            Plan { destination: Destination::Fallback, gateway_log, fallback_log: true }
        }
    }
}

/// The body length that the headers declare: the first `Content-Length`, if it
/// is a number.
pub open spec fn declared_length(contents: Contents) -> Option<u64> {
    match first_field(contents, "content-length"@) {
        Some((value, _)) if is_visible(value) => parsed_u64(decode_utf8(value)),
        _ => None,
    }
}

/// The body length that the headers declare, if it is a number.
pub fn content_length(headers: &HeaderMap) -> (length: Option<u64>)
    ensures
        length == declared_length(header_contents(*headers)),
{
    proof {
        lemma_known_names();
    }
    match get(headers, "content-length") {
        Some(value) => match header_value_to_str(value.bytes.as_slice()) {
            Some(text) => {
                proof {
                    vstd::utf8::encode_utf8_decode_utf8(text@);
                }
                parse_u64(text.as_str())
            },
            None => None,
        },
        None => None,
    }
}

/// A length in an access line: a decimal number, or `-` where it is unknown.
pub open spec fn length_text(length: Option<u64>) -> Seq<char> {
    match length {
        Some(length) => decimal_text(length as nat),
        None => "-"@,
    }
}

/// A length in an access line.
fn optional_length(length: Option<u64>) -> (text: String)
    ensures
        text@ == length_text(length),
{
    match length {
        Some(length) => decimal(length as u128),
        None => "-".to_owned(),
    }
}

/// A request and its response as an access line shows them: the method, the raw
/// target, the status, the elapsed milliseconds and the two body lengths.
pub fn access_line(
    method: &Method,
    target: &str,
    status: u16,
    elapsed_millis: u128,
    request_len: Option<u64>,
    response_len: Option<u64>,
) -> (line: String)
    ensures
        line@ == method@ + " "@ + target@ + " "@ + decimal_text(status as nat) + " "@
            + decimal_text(elapsed_millis as nat) + "ms "@ + length_text(request_len) + " "@
            + length_text(response_len),
{
    let line = method.as_str().to_owned().concat(" ").concat(target).concat(" ");
    let line = line.concat(decimal(status as u128).as_str()).concat(" ");
    let line = line.concat(decimal(elapsed_millis).as_str()).concat("ms ");
    let line = line.concat(optional_length(request_len).as_str()).concat(" ");
    line.concat(optional_length(response_len).as_str())
}

} // verus!
