use brz_http_gateway::proxy::{
    append_forwarded_for, error_response, has_forwarding_room, is_upgrade,
    remove_hop_by_hop_headers,
};
use brz_http_gateway::{
    FallbackProxy, ForwardStep, HeadersFull, OriginService, ProxyConfigError, Target, UriParts,
};
use http::{HeaderMap, HeaderName, HeaderValue};

fn headers(list: &[(&str, &str)]) -> HeaderMap {
    let mut map = HeaderMap::new();
    for (name, value) in list {
        map.append(
            HeaderName::from_bytes(name.as_bytes()).unwrap(),
            HeaderValue::from_bytes(value.as_bytes()).unwrap(),
        );
    }
    map
}

fn values(map: &HeaderMap, name: &str) -> Vec<String> {
    let bytes = map.get_all(name).iter().map(|value| value.as_bytes().to_vec());
    bytes.map(|bytes| String::from_utf8(bytes).unwrap()).collect()
}

fn many_headers(count: usize) -> HeaderMap {
    let mut map = HeaderMap::new();
    for i in 0..count {
        let name = HeaderName::from_bytes(format!("h{i}").as_bytes()).unwrap();
        map.insert(name, HeaderValue::from_static("1"));
    }
    map
}

fn proxy() -> FallbackProxy {
    FallbackProxy::new(&UriParts::parse("http://127.0.0.1:9000").unwrap()).unwrap()
}

fn send(
    proxy: &FallbackProxy,
    path_and_query: Option<&str>,
    map: &mut HeaderMap,
    peer: &str,
) -> (Target, bool) {
    match proxy.forward(path_and_query, map, peer) {
        Ok(ForwardStep::Send { target, upgrade }) => (target, upgrade),
        _ => panic!("the request should be sent"),
    }
}

#[test]
fn upgrades_need_both_headers() {
    assert!(is_upgrade(&headers(&[("Connection", "Upgrade"), ("Upgrade", "websocket")])));
    assert!(is_upgrade(&headers(&[
        ("connection", "close"),
        ("connection", "keep-alive, upgrade"),
        ("upgrade", ""),
    ])));
    assert!(!is_upgrade(&headers(&[("connection", "upgrade")])));
    assert!(!is_upgrade(&headers(&[("upgrade", "websocket")])));
    assert!(!is_upgrade(&headers(&[("connection", "upgraded"), ("upgrade", "websocket")])));
}

#[test]
fn hop_by_hop_headers_are_removed() {
    let list = [
        ("connection", "close, X-Secret , not a name, te"),
        ("connection", "x-other"),
        ("keep-alive", "timeout=5"),
        ("proxy-authenticate", "Basic"),
        ("proxy-authorization", "Basic"),
        ("te", "trailers"),
        ("trailer", "expires"),
        ("transfer-encoding", "chunked"),
        ("upgrade", "websocket"),
        ("x-secret", "1"),
        ("x-other", "1"),
        ("x-other", "2"),
        ("x-kept", "1"),
        ("set-cookie", "first=1"),
        ("set-cookie", "second=2"),
    ];
    let mut map = headers(&list);
    remove_hop_by_hop_headers(&mut map, false);
    assert_eq!(map, headers(&list[12..]));
    let mut again = map.clone();
    remove_hop_by_hop_headers(&mut again, false);
    assert_eq!(again, map);
}

#[test]
fn preserved_upgrades_keep_their_headers() {
    let mut map = headers(&[
        ("connection", "upgrade, x-secret"),
        ("upgrade", "websocket"),
        ("x-secret", "1"),
        ("te", "trailers"),
    ]);
    let kept = headers(&[("connection", "upgrade, x-secret"), ("upgrade", "websocket")]);
    remove_hop_by_hop_headers(&mut map, true);
    assert_eq!(map, kept);
    remove_hop_by_hop_headers(&mut map, true);
    assert_eq!(map, kept);
    assert!(is_upgrade(&map));
}

#[test]
fn a_connection_header_that_names_itself_is_removed() {
    let mut map = headers(&[("connection", "upgrade, connection"), ("upgrade", "websocket")]);
    assert!(is_upgrade(&map));
    remove_hop_by_hop_headers(&mut map, true);
    assert_eq!(map, headers(&[("upgrade", "websocket")]));
    assert!(!is_upgrade(&map));
}

#[test]
fn the_first_hop_sets_the_forwarded_address() {
    let mut map = HeaderMap::new();
    append_forwarded_for(&mut map, "10.0.0.1").unwrap();
    assert_eq!(values(&map, "x-forwarded-for"), ["10.0.0.1"]);
}

#[test]
fn further_hops_append_their_address() {
    let mut map = HeaderMap::new();
    append_forwarded_for(&mut map, "10.0.0.1").unwrap();
    append_forwarded_for(&mut map, "::1").unwrap();
    let mut at_once = HeaderMap::new();
    append_forwarded_for(&mut at_once, "10.0.0.1, ::1").unwrap();
    assert_eq!(values(&map, "x-forwarded-for"), ["10.0.0.1, ::1"]);
    assert_eq!(map, at_once);
}

#[test]
fn no_hop_of_a_repeated_header_is_lost() {
    let mut map = headers(&[("x-forwarded-for", "1.1.1.1"), ("x-forwarded-for", "2.2.2.2")]);
    append_forwarded_for(&mut map, "10.0.0.1").unwrap();
    assert_eq!(values(&map, "x-forwarded-for"), ["1.1.1.1, 2.2.2.2, 10.0.0.1"]);
    let mut forwarded =
        headers(&[("x-forwarded-for", "1.1.1.1, 3.3.3.3"), ("x-forwarded-for", "2.2.2.2")]);
    send(&proxy(), Some("/"), &mut forwarded, "10.0.0.1");
    assert_eq!(values(&forwarded, "x-forwarded-for"), ["1.1.1.1, 3.3.3.3, 2.2.2.2, 10.0.0.1"]);
}

#[test]
fn only_values_that_are_no_text_are_dropped() {
    let list = [
        ("x-forwarded-for", "é"),
        ("x-forwarded-for", "a"),
        ("x-forwarded-for", "ü"),
        ("x-forwarded-for", "b"),
    ];
    let mut map = headers(&list);
    append_forwarded_for(&mut map, "c").unwrap();
    assert_eq!(values(&map, "x-forwarded-for"), ["a, b, c"]);
    let mut no_address = headers(&list);
    append_forwarded_for(&mut no_address, "\n").unwrap();
    assert_eq!(values(&no_address, "x-forwarded-for"), ["a, b"]);
    let mut unchanged = headers(&[("x-forwarded-for", "a"), ("x-forwarded-for", "b")]);
    append_forwarded_for(&mut unchanged, "\n").unwrap();
    assert_eq!(values(&unchanged, "x-forwarded-for"), ["a", "b"]);
}

#[test]
fn forwarded_values_that_are_no_text_are_replaced() {
    let mut map = headers(&[("x-forwarded-for", "é")]);
    append_forwarded_for(&mut map, "10.0.0.1").unwrap();
    assert_eq!(values(&map, "x-forwarded-for"), ["10.0.0.1"]);
    let mut dropped = headers(&[("x-forwarded-for", "é")]);
    append_forwarded_for(&mut dropped, "10.0.0.1\n").unwrap();
    assert!(dropped.is_empty());
}

#[test]
fn addresses_that_fit_no_header_are_left_out() {
    let mut map = headers(&[("x-forwarded-for", "a")]);
    append_forwarded_for(&mut map, "b\0").unwrap();
    assert_eq!(values(&map, "x-forwarded-for"), ["a"]);
    let mut empty = HeaderMap::new();
    append_forwarded_for(&mut empty, "b\r").unwrap();
    assert!(empty.is_empty());
}

#[test]
fn requests_are_rewritten_for_the_origin() {
    let mut map = headers(&[
        ("host", "public.example"),
        ("transfer-encoding", "chunked"),
        ("connection", "close"),
    ]);
    let (target, upgrade) = send(&proxy(), Some("/echo?part=1"), &mut map, "127.0.0.1");
    assert!(!upgrade);
    assert_eq!(target.uri.to_string(), "http://127.0.0.1:9000/echo?part=1");
    assert_eq!(target.scheme, "http");
    assert_eq!(target.authority, "127.0.0.1:9000");
    assert_eq!(target.path_and_query, "/echo?part=1");
    assert_eq!(
        map,
        headers(&[
            ("host", "public.example"),
            ("x-forwarded-for", "127.0.0.1"),
            ("x-forwarded-proto", "http"),
            ("x-forwarded-host", "public.example"),
        ])
    );
}

#[test]
fn upgrade_requests_stay_upgrade_requests() {
    let list =
        [("host", "public.example"), ("connection", "upgrade"), ("upgrade", "test")];
    let mut map = headers(&list);
    let (target, upgrade) = send(&proxy(), Some("/socket"), &mut map, "::1");
    assert!(upgrade);
    assert_eq!(target.uri.to_string(), "http://127.0.0.1:9000/socket");
    assert_eq!(values(&map, "connection"), ["upgrade"]);
    assert_eq!(values(&map, "upgrade"), ["test"]);
    assert!(is_upgrade(&map));
}

#[test]
fn forwarding_headers_of_earlier_hops_are_kept() {
    let mut map = headers(&[
        ("host", "inner.example"),
        ("x-forwarded-for", "10.0.0.1"),
        ("x-forwarded-proto", "https"),
        ("x-forwarded-host", "public.example"),
    ]);
    send(&proxy(), Some("/"), &mut map, "10.0.0.2");
    assert_eq!(
        map,
        headers(&[
            ("host", "inner.example"),
            ("x-forwarded-for", "10.0.0.1, 10.0.0.2"),
            ("x-forwarded-proto", "https"),
            ("x-forwarded-host", "public.example"),
        ])
    );
}

#[test]
fn nominated_forwarding_headers_are_set_anew() {
    let mut map = headers(&[
        ("connection", "x-forwarded-for, x-forwarded-proto, x-forwarded-host, host"),
        ("host", "inner.example"),
        ("x-forwarded-for", "10.0.0.1"),
        ("x-forwarded-proto", "https"),
        ("x-forwarded-host", "public.example"),
    ]);
    send(&proxy(), Some("/"), &mut map, "10.0.0.2");
    assert_eq!(
        map,
        headers(&[
            ("x-forwarded-for", "10.0.0.2"),
            ("x-forwarded-proto", "http"),
            ("x-forwarded-host", "inner.example"),
        ])
    );
}

#[test]
fn requests_without_host_get_no_forwarded_host() {
    let mut map = HeaderMap::new();
    send(&proxy(), Some("/"), &mut map, "10.0.0.2");
    assert!(!map.contains_key("x-forwarded-host"));
    assert_eq!(map.len(), 2);
}

#[test]
fn sensitive_values_stay_marked() {
    let mut map = headers(&[("accept", "a"), ("connection", "close")]);
    let mut host = HeaderValue::from_static("public.example");
    host.set_sensitive(true);
    map.insert("host", host.clone());
    map.insert("cookie", host.clone());
    let mut address = HeaderValue::from_static("10.0.0.1");
    address.set_sensitive(true);
    map.insert("x-forwarded-for", address);
    send(&proxy(), Some("/"), &mut map, "10.0.0.2");
    for name in ["host", "cookie", "x-forwarded-host"] {
        assert_eq!(map[name], "public.example");
        assert!(map[name].is_sensitive());
    }
    assert_eq!(map["x-forwarded-for"], "10.0.0.1, 10.0.0.2");
    for name in ["accept", "x-forwarded-for", "x-forwarded-proto"] {
        assert!(!map[name].is_sensitive());
    }
}

#[test]
fn unmarked_hosts_stay_unmarked() {
    let mut map = headers(&[("host", "public.example")]);
    send(&proxy(), Some("/"), &mut map, "10.0.0.2");
    assert_eq!(map["x-forwarded-host"], "public.example");
    assert!(!map["x-forwarded-host"].is_sensitive());
}

#[test]
fn upgrades_can_be_stripped_later() {
    let list = [
        ("connection", "upgrade, x-secret, connection"),
        ("upgrade", "websocket"),
        ("x-secret", "1"),
        ("x-kept", "1"),
    ];
    let mut later = headers(&list);
    remove_hop_by_hop_headers(&mut later, true);
    remove_hop_by_hop_headers(&mut later, false);
    let mut at_once = headers(&list);
    remove_hop_by_hop_headers(&mut at_once, false);
    assert_eq!(later, at_once);
    assert_eq!(later, headers(&list[3..]));
}

#[test]
fn room_is_counted_in_names() {
    assert!(has_forwarding_room(&HeaderMap::new()));
    assert!(has_forwarding_room(&many_headers(6551)));
    assert!(!has_forwarding_room(&many_headers(6552)));
    let mut repeated = many_headers(6551);
    repeated.append("h0", HeaderValue::from_static("2"));
    assert!(has_forwarding_room(&repeated));
}

#[test]
fn repeated_headers_reach_the_origin() {
    let mut map = headers(&[("cookie", "a=1"), ("cookie", "b=2")]);
    send(&proxy(), Some("/"), &mut map, "10.0.0.2");
    assert_eq!(values(&map, "cookie"), ["a=1", "b=2"]);
}

#[test]
fn targets_keep_path_and_query() {
    for (wanted, sent) in [
        (Some("/a/b?c=d&e=%20"), "/a/b?c=d&e=%20"),
        (Some("/a?b?c"), "/a?b?c"),
        (Some("/a#b"), "/a"),
        (Some("#b"), "/"),
        (Some("?q=1"), "?q=1"),
        (Some(""), "/"),
        (Some("*"), "*"),
        (None, "/"),
    ] {
        let (target, _) = send(&proxy(), wanted, &mut HeaderMap::new(), "10.0.0.2");
        assert_eq!(target.path_and_query, sent);
        assert_eq!(target.uri.scheme_str(), Some("http"));
        assert_eq!(target.uri.authority().unwrap().as_str(), "127.0.0.1:9000");
        assert_eq!(target.uri.path_and_query().unwrap().as_str(), sent);
    }
}

#[test]
fn invalid_targets_are_answered() {
    let mut map = headers(&[("host", "public.example"), ("te", "trailers")]);
    let before = map.clone();
    for wanted in ["relative", "/a b", "/a<b", "/\u{7f}", &format!("/{}", "a".repeat(65534))] {
        match proxy().forward(Some(wanted), &mut map, "10.0.0.2") {
            Ok(ForwardStep::Reply(reply)) => {
                assert_eq!(reply.status, 502);
                assert_eq!(reply.content_type, "text/plain; charset=utf-8");
                assert!(!reply.body.is_empty());
            }
            _ => panic!("the request should be answered"),
        }
        assert_eq!(map, before);
    }
}

#[test]
fn invalid_targets_are_answered_with_the_reason() {
    match proxy().forward(Some("/a b"), &mut HeaderMap::new(), "10.0.0.2") {
        Ok(ForwardStep::Reply(reply)) => assert_eq!(reply.body, "invalid uri character"),
        _ => panic!("the request should be answered"),
    }
}

#[test]
fn maps_with_room_are_never_full() {
    let mut map = many_headers(6551);
    send(&proxy(), Some("/"), &mut map, "10.0.0.2");
    assert_eq!(map.len(), 6553);
}

#[test]
fn full_maps_are_reported() {
    let mut map = many_headers(24576);
    assert!(matches!(append_forwarded_for(&mut map, "10.0.0.2"), Err(HeadersFull)));
    assert_eq!(map.len(), 24576);
    assert!(matches!(proxy().forward(Some("/"), &mut map, "10.0.0.2"), Err(HeadersFull)));
}

#[test]
fn failed_origins_are_reported() {
    let reply = FallbackProxy::upstream_failed();
    assert_eq!(reply.status, 502);
    assert_eq!(reply.content_type, "text/plain; charset=utf-8");
    assert_eq!(reply.body, "fallback upstream unavailable");
}

#[test]
fn responses_lose_hop_by_hop_headers() {
    let list = [
        ("transfer-encoding", "chunked"),
        ("connection", "close"),
        ("set-cookie", "first=1"),
        ("set-cookie", "second=2"),
    ];
    let mut map = headers(&list);
    assert!(!FallbackProxy::relay_response(201, &mut map, false));
    assert_eq!(map, headers(&list[2..]));
    let mut refused = headers(&[("connection", "upgrade"), ("upgrade", "test")]);
    assert!(!FallbackProxy::relay_response(426, &mut refused, true));
    assert!(refused.is_empty());
}

#[test]
fn switched_protocols_keep_their_headers() {
    let list = [("connection", "upgrade"), ("upgrade", "test"), ("te", "trailers")];
    let mut map = headers(&list);
    assert!(FallbackProxy::relay_response(101, &mut map, true));
    assert_eq!(map, headers(&list));
    assert!(!FallbackProxy::relay_response(101, &mut map, false));
    assert_eq!(map, headers(&list));
}

#[test]
fn error_replies_are_plain_text() {
    let reply = error_response(404, "gone");
    assert_eq!((reply.status, reply.body.as_str()), (404, "gone"));
    assert_eq!(reply.content_type, "text/plain; charset=utf-8");
}

#[test]
fn uris_are_read_into_their_components() {
    let uri = UriParts::parse("https://user@host:8443/a/b?c=d#e").unwrap();
    assert_eq!(uri.scheme.as_deref(), Some("https"));
    assert_eq!(uri.authority.as_deref(), Some("user@host:8443"));
    assert_eq!(uri.path, "/a/b");
    assert_eq!(uri.query.as_deref(), Some("c=d"));
    let origin = UriParts::parse("http://host").unwrap();
    assert_eq!(origin.path, "/");
    assert_eq!(origin.query, None);
    let path = UriParts::parse("/a").unwrap();
    assert_eq!((path.scheme, path.authority), (None, None));
    assert!(UriParts::parse("").is_none());
    assert!(UriParts::parse("http://a b").is_none());
}

#[test]
fn only_http_origins_are_accepted() {
    fn error(text: &str) -> ProxyConfigError {
        FallbackProxy::new(&UriParts::parse(text).unwrap()).err().unwrap()
    }
    assert!(matches!(error("/path"), ProxyConfigError::MissingScheme));
    assert!(matches!(error("host:80"), ProxyConfigError::MissingScheme));
    assert!(matches!(
        error("https://host"),
        ProxyConfigError::UnsupportedScheme(scheme) if scheme == "https"
    ));
    assert!(matches!(error("http://host/path"), ProxyConfigError::UnexpectedPath));
    assert!(matches!(error("http://host?query"), ProxyConfigError::UnexpectedPath));
    assert!(OriginService::new(&UriParts::parse("http://host/").unwrap()).is_ok());
    assert!(OriginService::new(&UriParts::parse("https://host/").unwrap()).is_err());
    let bare = UriParts {
        scheme: Some("http".to_owned()),
        authority: None,
        path: "/".to_owned(),
        query: None,
    };
    assert!(matches!(FallbackProxy::new(&bare), Err(ProxyConfigError::MissingAuthority)));
}

#[test]
fn origin_faults_are_described() {
    let errors = [
        ProxyConfigError::MissingScheme,
        ProxyConfigError::MissingAuthority,
        ProxyConfigError::UnsupportedScheme("ftp".to_owned()),
        ProxyConfigError::UnexpectedPath,
    ];
    let messages = [
        "fallback upstream URL must include a scheme",
        "fallback upstream URL must include an authority",
        "fallback upstream scheme is not supported: ftp",
        "fallback upstream URL must not include a path or query",
    ];
    for (error, message) in errors.iter().zip(messages) {
        assert_eq!(error.message(), message);
    }
}

#[test]
fn copies_of_a_proxy_forward_to_the_same_origin() {
    let service = OriginService::new(&UriParts::parse("http://host:81").unwrap()).unwrap();
    let copy = service.clone();
    let (target, _) = send(copy.proxy(), Some("/a"), &mut HeaderMap::new(), "10.0.0.2");
    assert_eq!(target.uri.to_string(), "http://host:81/a");
}
