use brz_http_gateway::gateway::{access_line, content_length};
use brz_http_gateway::{
    Destination, Gateway, Method, ProxyConfigError, RejectMatched, RouteRule, RouteTable,
    RoutesConfig, UriParts,
};
use http::{HeaderMap, HeaderValue};

fn method(text: &str) -> Method {
    Method::parse(text).unwrap()
}

fn origin() -> UriParts {
    UriParts::parse("http://127.0.0.1:9000").unwrap()
}

fn length(value: &[u8]) -> Option<u64> {
    let mut headers = HeaderMap::new();
    headers.insert("content-length", HeaderValue::from_bytes(value).unwrap());
    content_length(&headers)
}

#[test]
fn empty_routes_send_everything_to_the_fallback() {
    let gateway = Gateway::new(RouteTable::empty(), RejectMatched, &origin()).unwrap();
    for (text, path) in [("GET", "/"), ("POST", "/echo"), ("OPTIONS", "*"), ("GET", "")] {
        let plan = gateway.handle(&method(text), path);
        assert_eq!(plan.destination, Destination::Fallback);
        assert!(plan.gateway_log);
        assert!(plan.fallback_log);
    }
    assert!(gateway.routes().is_empty());
}

#[test]
fn selected_requests_go_to_the_service() {
    let rule = |path: &str, log: bool| RouteRule {
        methods: vec!["GET".to_owned()],
        path: path.to_owned(),
        log,
    };
    let config = RoutesConfig { routes: vec![rule("/api/health", true), rule("/quiet", false)] };
    let table = RouteTable::compile(config).unwrap();
    let gateway = Gateway::new(table, RejectMatched, &origin()).unwrap().clone();
    assert_eq!(gateway.routes().len(), 2);

    let logged = gateway.handle(&method("GET"), "/api/health");
    assert_eq!(logged.destination, Destination::Matched);
    assert!(logged.gateway_log && !logged.fallback_log);

    let quiet = gateway.handle(&method("GET"), "/quiet");
    assert_eq!(quiet.destination, Destination::Matched);
    assert!(!quiet.gateway_log && !quiet.fallback_log);

    let other = gateway.handle(&method("POST"), "/quiet");
    assert_eq!(other.destination, Destination::Fallback);
    assert!(other.gateway_log && other.fallback_log);
}

#[test]
fn gateways_need_an_http_origin() {
    let wrong = UriParts::parse("http://127.0.0.1:9000/base").unwrap();
    let result = Gateway::new(RouteTable::empty(), RejectMatched, &wrong);
    assert!(matches!(result, Err(ProxyConfigError::UnexpectedPath)));
}

#[test]
fn gateways_keep_their_service() {
    let gateway = Gateway::new(RouteTable::empty(), 7_u8, &origin()).unwrap();
    assert_eq!(*gateway.matched(), 7);
    assert_eq!(*gateway.clone().matched(), 7);
}

#[test]
fn the_placeholder_service_is_not_implemented() {
    let reply = RejectMatched.call();
    assert_eq!(reply.status, 501);
    assert_eq!(reply.content_type, "text/plain; charset=utf-8");
    assert_eq!(reply.body, "matched route has no service implementation");
}

#[test]
fn declared_lengths_are_numbers() {
    assert_eq!(length(b"133"), Some(133));
    assert_eq!(length(b"0"), Some(0));
    assert_eq!(length(b"+7"), Some(7));
    assert_eq!(length(b"007"), Some(7));
    assert_eq!(length(b"18446744073709551615"), Some(u64::MAX));
    assert_eq!(length(b"18446744073709551616"), None);
    assert_eq!(length(b""), None);
    assert_eq!(length(b"+"), None);
    assert_eq!(length(b"-1"), None);
    assert_eq!(length(b" 1"), None);
    assert_eq!(length(b"1\xff"), None);
    assert_eq!(content_length(&HeaderMap::new()), None);
}

#[test]
fn the_first_declared_length_counts() {
    let mut headers = HeaderMap::new();
    headers.append("content-length", HeaderValue::from_static("1"));
    headers.append("content-length", HeaderValue::from_static("2"));
    assert_eq!(content_length(&headers), Some(1));
}

#[test]
fn access_lines_are_positional() {
    assert_eq!(
        access_line(&method("GET"), "/api/quota?q=a", 200, 102, None, Some(133)),
        "GET /api/quota?q=a 200 102ms - 133"
    );
    assert_eq!(
        access_line(&method("POST"), "/", 502, 0, Some(u64::MAX), None),
        "POST / 502 0ms 18446744073709551615 -"
    );
    assert_eq!(
        access_line(&method("GET"), "*", 7, u128::MAX, Some(0), Some(10)),
        "GET * 7 340282366920938463463374607431768211455ms 0 10"
    );
}

#[test]
fn lengths_in_access_lines_read_back() {
    for number in [0, 9, 10, 101, u64::MAX] {
        let line = access_line(&method("GET"), "/", 200, 1, None, Some(number));
        let shown = line.rsplit(' ').next().unwrap();
        assert_eq!(length(shown.as_bytes()), Some(number));
    }
}
