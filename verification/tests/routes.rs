use brz_http_gateway::config::default_log;
use brz_http_gateway::{ConfigError, Method, RouteError, RouteRule, RouteTable, RoutesConfig};

fn method(text: &str) -> Method {
    Method::parse(text).unwrap()
}

fn rule(methods: &[&str], path: &str) -> RouteRule {
    RouteRule {
        methods: methods.iter().map(ToString::to_string).collect(),
        path: path.to_owned(),
        log: true,
    }
}

fn silent(methods: &[&str], path: &str) -> RouteRule {
    RouteRule { log: false, ..rule(methods, path) }
}

fn compile(routes: Vec<RouteRule>) -> Result<RouteTable, ConfigError> {
    RouteTable::compile(RoutesConfig { routes })
}

fn message(routes: Vec<RouteRule>) -> String {
    compile(routes).err().unwrap().message()
}

#[test]
fn empty_table_falls_back_every_request() {
    let table = RouteTable::empty();
    assert!(!table.matches(&method("GET"), "/api/health"));
}

#[test]
fn exact_rules_match_method() {
    let table = RouteTable::compile(RoutesConfig {
        routes: vec![rule(&["GET"], "/api/health")],
    })
    .unwrap();
    assert!(table.matches(&method("GET"), "/api/health"));
    assert!(!table.matches(&method("POST"), "/api/health"));
    assert!(!table.matches(&method("GET"), "/api/health/ready"));
}

#[test]
fn templates_select_parameter_and_catch_all_paths() {
    let table = RouteTable::compile(RoutesConfig {
        routes: vec![
            rule(&["GET"], "/api/tasks/:task_id"),
            rule(&["GET"], "/api/quota/*path"),
        ],
    })
    .unwrap();
    assert!(table.matches(&method("GET"), "/api/tasks/123"));
    assert!(table.matches(&method("GET"), "/api/quota/model/quota"));
    assert!(!table.matches(&method("GET"), "/api/quota"));
}

#[test]
fn route_log_flag_is_independent_from_matching() {
    let table = RouteTable::compile(RoutesConfig {
        routes: vec![RouteRule {
            methods: vec!["GET".to_owned()],
            path: "/".to_owned(),
            log: false,
        }],
    })
    .unwrap();
    assert!(table.matches(&method("GET"), "/"));
    assert!(!table.logs(&method("GET"), "/"));
    assert!(table.logs(&method("GET"), "/other"));
}

#[test]
fn empty_tables_count_no_routes_and_log_everything() {
    let tables = [
        RouteTable::empty(),
        RouteTable::default(),
        RouteTable::compile(RoutesConfig::default()).unwrap(),
    ];
    for table in tables {
        assert!(table.is_empty());
        assert_eq!(table.len(), 0);
        assert!(table.logs(&method("GET"), "/"));
        assert!(!table.matches(&method("GET"), "/"));
        assert!(!table.matches(&method("GET"), ""));
    }
}

#[test]
fn tables_count_every_rule() {
    let table = compile(vec![rule(&[], "/a"), silent(&[], "/a"), rule(&["GET"], "/:b")]).unwrap();
    assert!(!table.is_empty());
    assert_eq!(table.len(), 3);
}

#[test]
fn clones_select_the_same_requests() {
    let table = compile(vec![silent(&["GET"], "/a/:b")]).unwrap();
    let copy = table.clone();
    assert_eq!(copy.len(), 1);
    assert!(copy.matches(&method("GET"), "/a/1"));
    assert!(!copy.matches(&method("GET"), "/a"));
    assert!(!copy.logs(&method("GET"), "/a/1"));
}

#[test]
fn no_methods_select_every_method() {
    let table = compile(vec![rule(&[], "/any")]).unwrap();
    for text in ["GET", "POST", "DELETE", "PROPFIND", "get"] {
        assert!(table.matches(&method(text), "/any"));
    }
}

#[test]
fn methods_are_case_sensitive() {
    let table = compile(vec![rule(&["GET", "purge"], "/a")]).unwrap();
    assert!(table.matches(&method("GET"), "/a"));
    assert!(!table.matches(&method("get"), "/a"));
    assert!(table.matches(&method("purge"), "/a"));
    assert!(!table.matches(&method("PURGE"), "/a"));
}

#[test]
fn parameters_stand_for_one_segment() {
    let table = compile(vec![rule(&[], "/a/:b/c")]).unwrap();
    assert!(table.matches(&method("GET"), "/a/x/c"));
    assert!(!table.matches(&method("GET"), "/a//c"));
    assert!(!table.matches(&method("GET"), "/a/x/y/c"));
    assert!(!table.matches(&method("GET"), "/a/x"));
    assert!(!table.matches(&method("GET"), "/a/x/d"));
}

#[test]
fn catch_alls_stand_for_one_or_more_segments() {
    let table = compile(vec![rule(&[], "/a/*rest")]).unwrap();
    assert!(table.matches(&method("GET"), "/a/"));
    assert!(table.matches(&method("GET"), "/a/b"));
    assert!(table.matches(&method("GET"), "/a/b/c/d/e/f/g/h/i/j"));
    assert!(!table.matches(&method("GET"), "/a"));
    assert!(!table.matches(&method("GET"), "/b/c"));
    let everything = compile(vec![rule(&[], "/*rest")]).unwrap();
    assert!(everything.matches(&method("GET"), "/"));
    assert!(everything.matches(&method("GET"), ""));
    assert!(!everything.matches(&method("OPTIONS"), "*"));
}

#[test]
fn literal_paths_are_exact() {
    let table = compile(vec![rule(&[], "/a/b"), rule(&[], "/x:y/z*")]).unwrap();
    assert!(table.matches(&method("GET"), "/a/b"));
    assert!(!table.matches(&method("GET"), "/a/b/"));
    assert!(!table.matches(&method("GET"), "/A/b"));
    assert!(!table.matches(&method("GET"), "/a/c"));
    assert!(table.matches(&method("GET"), "/x:y/z*"));
    assert!(!table.matches(&method("GET"), "/x1/z2"));
}

#[test]
fn rule_order_does_not_matter() {
    let forth = compile(vec![rule(&["GET"], "/a/:b"), rule(&["POST"], "/a/new")]).unwrap();
    let back = compile(vec![rule(&["POST"], "/a/new"), rule(&["GET"], "/a/:b")]).unwrap();
    for (text, path, selected) in [
        ("GET", "/a/new", true),
        ("POST", "/a/new", true),
        ("GET", "/a/1", true),
        ("POST", "/a/1", false),
    ] {
        assert_eq!(forth.matches(&method(text), path), selected);
        assert_eq!(back.matches(&method(text), path), selected);
    }
}

#[test]
fn a_silent_rule_keeps_a_request_out_of_the_log() {
    let table = compile(vec![rule(&[], "/a/*rest"), silent(&["GET"], "/a/:b")]).unwrap();
    assert!(table.matches(&method("GET"), "/a/b"));
    assert!(!table.logs(&method("GET"), "/a/b"));
    assert!(table.logs(&method("POST"), "/a/b"));
    assert!(table.logs(&method("GET"), "/a/b/c"));
    assert!(table.logs(&method("GET"), "/other"));
}

#[test]
fn invalid_methods_are_reported_first() {
    let routes = vec![rule(&[], "relative"), rule(&["GET", "BAD METHOD", ""], "/b")];
    match compile(routes) {
        Err(ConfigError::InvalidMethod { index, method }) => {
            assert_eq!(index, 1);
            assert_eq!(method, "BAD METHOD");
        }
        _ => panic!("an invalid method was expected"),
    }
    assert_eq!(
        message(vec![rule(&[""], "/b")]),
        "route 0 has invalid HTTP method: "
    );
    assert_eq!(
        message(vec![rule(&["GET"], "/"), rule(&["GE T"], "/b")]),
        "route 1 has invalid HTTP method: GE T"
    );
}

#[test]
fn malformed_templates_are_reported() {
    match compile(vec![rule(&[], "/ok"), rule(&[], "relative")]) {
        Err(ConfigError::Route(RouteError::RelativePath { index, path })) => {
            assert_eq!(index, 1);
            assert_eq!(path, "relative");
        }
        _ => panic!("a relative path was expected"),
    }
    match compile(vec![rule(&[], "/a/:")]) {
        Err(ConfigError::Route(RouteError::EmptyParameter { index, path })) => {
            assert_eq!(index, 0);
            assert_eq!(path, "/a/:");
        }
        _ => panic!("an empty parameter was expected"),
    }
    match compile(vec![silent(&[], "/a/*b/c")]) {
        Err(ConfigError::Route(RouteError::InvalidCatchAll { index, path })) => {
            assert_eq!(index, 0);
            assert_eq!(path, "/a/*b/c");
        }
        _ => panic!("an invalid catch-all was expected"),
    }
}

#[test]
fn malformed_templates_are_described() {
    assert_eq!(message(vec![rule(&[], "")]), "route 0 path must start with '/': ");
    assert_eq!(
        message(vec![rule(&[], "/"), rule(&[], "/x/:/y")]),
        "route 1 has an empty parameter segment: /x/:/y"
    );
    assert_eq!(
        message(vec![rule(&[], "/*")]),
        "route 0 has an invalid catch-all segment: /*"
    );
    let mut routes: Vec<RouteRule> = (0..10).map(|_| rule(&[], "/")).collect();
    routes.push(rule(&[], "ten"));
    assert_eq!(message(routes), "route 10 path must start with '/': ten");
}

#[test]
fn the_first_fault_of_a_template_counts() {
    assert!(matches!(
        compile(vec![rule(&[], "/*a/:")]),
        Err(ConfigError::Route(RouteError::InvalidCatchAll { .. }))
    ));
    assert!(matches!(
        compile(vec![rule(&[], "/:/*")]),
        Err(ConfigError::Route(RouteError::EmptyParameter { .. }))
    ));
}

#[test]
fn routes_are_logged_unless_they_say_otherwise() {
    assert!(default_log());
}

#[test]
fn methods_are_tokens() {
    assert_eq!(method("GET").as_str(), "GET");
    assert_eq!(method("x-custom").clone().as_str(), "x-custom");
    for text in ["", "GE T", "GET\n", "GÉT", "a,b", "a/b"] {
        assert!(Method::parse(text).is_none());
    }
}
