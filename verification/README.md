# Breeze HTTP Gateway

`brz-http-gateway` is a reusable HTTP/1.1 migration gateway. Typed route rules
select requests for an application service; every unmatched request is streamed
to a fallback origin. The transport preserves request and response streaming,
repeated headers such as `Set-Cookie`, connection cancellation/backpressure, and
HTTP upgrades such as WebSocket. An empty route table is a transparent
all-fallback configuration.

The decisions of the gateway are verified with Verus.

- `src/config.rs`, `src/router.rs`, `src/method.rs`: route rules, which of them
  are well formed, and which requests they select.
- `src/proxy.rs`, `src/headers.rs`, `src/uri.rs`, `src/tokens.rs`: what becomes
  of a request and its response on the way to an origin and back.
- `src/gateway.rs`: where a request goes, and its access line.
- `src/server.rs`: listener limits, and how a listener admits, drains and aborts
  connections.
- `src/laws/`: what holds of all of these together.
- `app/`: configuration files, sockets and streams around the library.

Route configuration is TOML:

```toml
routes = []

# [[routes]]
# methods = ["GET", "HEAD"]
# path = "/api/health"
# Literal paths are exact. Use `:name` for one path segment or terminal
# `*name` for the remaining path segments.
```

Only an origin-only `http://` fallback URL is accepted. A listener applies
bounded defaults: 65,536 downstream connections, a 32 KiB request-head buffer, a
15 second request-head timeout, and `TCP_NODELAY`. An upgraded connection counts
until its tunnel is over, for the limit as well as for draining.

Access lines are positional: method, raw target, status, elapsed time, request
length, and response length. Unknown lengths use `-`:

```text
GET /api/quota?q=a 200 102ms - 133
```
