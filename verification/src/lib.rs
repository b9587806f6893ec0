//! A route-selective HTTP/1.1 gateway with a streaming fallback origin.
//!
//! The gateway is application-independent. A typed [`RouteTable`] selects
//! requests for an application service; unmatched requests are proxied to the
//! fallback origin with streaming bodies, repeated headers,
//! cancellation/backpressure, and HTTP upgrades preserved. An empty route table
//! forwards every request.
//!
//! This crate holds what the gateway decides: which routes are well formed and
//! which requests they select, what happens to the headers of a forwarded
//! request and of its response, which origin URLs are accepted, and how a
//! listener admits, drains and aborts connections.

pub mod config;
pub mod gateway;
pub mod headers;
pub mod laws;
pub mod method;
pub mod proxy;
pub mod router;
pub mod server;
pub mod text;
pub mod tokens;
pub mod uri;

pub use config::{ConfigError, RouteRule, RouteTable, RoutesConfig};
pub use gateway::{Destination, Gateway, OriginService, Plan, RejectMatched};
pub use method::Method;
pub use proxy::{ErrorReply, FallbackProxy, ForwardStep, HeadersFull, ProxyConfigError};
pub use router::RouteError;
pub use server::{
    Connection, ConnectionAction, ConnectionEvent, GatewayConfig, InvalidLimit, ServeAction,
    ServeEvent, Server, Timeout,
};
pub use uri::{Target, UriParts};
