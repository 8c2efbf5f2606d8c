use gateway_routing::address::{Authority, IpAddress, SocketAddress};
use gateway_routing::config::{ConfigRecord, DirRecord, HttpParsedRecord, HttpRecord};
use gateway_routing::table::RouteConfig;
use gateway_routing::engine::{decide, RewrittenUri, RoutingOutcome};
use gateway_routing::resolver::{RecordError, ResolvedUpstream};

fn v4(a: u8, b: u8, c: u8, d: u8, port: u16) -> SocketAddress {
    SocketAddress::new(IpAddress::V4(u32::from_be_bytes([a, b, c, d])), port)
}

fn upstream(addr: SocketAddress, text: &str) -> Result<ResolvedUpstream, RecordError> {
    Ok(ResolvedUpstream { authority: Authority::Named(text.to_string()), addr })
}

fn http(domain: &str, upstream: &str) -> HttpRecord {
    HttpRecord {
        domain: domain.to_string(),
        upstream: upstream.to_string(),
        routes: None,
        https: None,
        proxy_ports_from_prefix: None,
        strip_route: None,
    }
}

fn dir(domain: &str, listen: &str, path: &str, route: &str) -> DirRecord {
    DirRecord {
        domain: domain.to_string(),
        listen: listen.to_string(),
        path: path.to_string(),
        route: route.to_string(),
    }
}

fn table(
    http: Vec<HttpRecord>,
    upstreams: Vec<Result<ResolvedUpstream, RecordError>>,
    dirs: Vec<DirRecord>,
    listens: Vec<Option<SocketAddress>>,
) -> RouteConfig {
    ConfigRecord::new(Vec::new(), http, dirs).to_route_config(upstreams, listens)
}

fn plain(authority: Authority, path: &str) -> RewrittenUri {
    RewrittenUri { https: false, authority, path_and_query: Some(path.to_string()) }
}

#[test]
fn directory_records_match_in_declaration_order() {
    let a = v4(127, 0, 0, 1, 9001);
    let b = v4(127, 0, 0, 1, 9002);
    let t = table(
        vec![],
        vec![],
        vec![dir("site", "127.0.0.1:9001", "/srv/api", "/api"), dir("site", "127.0.0.1:9002", "/srv/www", "/")],
        vec![Some(a), Some(b)],
    );
    assert_eq!(
        t.resolve("site", Some("/api/users")),
        RoutingOutcome::ForwardToDirectory {
            target_address: a,
            rewritten_uri: plain(Authority::Address(a), "/api/users"),
        }
    );
    assert_eq!(
        t.resolve("site", Some("/other")),
        RoutingOutcome::ForwardToDirectory {
            target_address: b,
            rewritten_uri: plain(Authority::Address(b), "/other"),
        }
    );
}

#[test]
fn first_directory_match_wins_over_longer_prefix() {
    let a = v4(10, 0, 0, 1, 80);
    let b = v4(10, 0, 0, 2, 80);
    let t = table(
        vec![],
        vec![],
        vec![dir("site", "a", "/one", "/a"), dir("site", "b", "/two", "/a/b")],
        vec![Some(a), Some(b)],
    );
    match t.resolve("site", Some("/a/b/c")) {
        RoutingOutcome::ForwardToDirectory { target_address, .. } => assert_eq!(target_address, a),
        other => panic!("{:?}", other),
    }
}

#[test]
fn directory_match_keeps_the_query_and_looks_at_the_path_only() {
    let a = v4(10, 0, 0, 1, 80);
    let t = table(vec![], vec![], vec![dir("site", "a", "/one", "/a?x")], vec![Some(a)]);
    assert_eq!(t.resolve("site", Some("/a?x=1")), RoutingOutcome::NoRoute);
    let t = table(vec![], vec![], vec![dir("site", "a", "/one", "/a")], vec![Some(a)]);
    assert_eq!(
        t.resolve("site", Some("/a?x=1")),
        RoutingOutcome::ForwardToDirectory {
            target_address: a,
            rewritten_uri: plain(Authority::Address(a), "/a?x=1"),
        }
    );
}

#[test]
fn directory_host_without_path_has_no_route() {
    let a = v4(10, 0, 0, 1, 80);
    let u = v4(10, 0, 0, 9, 80);
    let t = table(
        vec![http("site", "10.0.0.9:80")],
        vec![upstream(u, "10.0.0.9:80")],
        vec![dir("site", "a", "/one", "/")],
        vec![Some(a)],
    );
    assert_eq!(t.resolve("site", None), RoutingOutcome::NoRoute);
}

#[test]
fn directory_beats_upstream_and_upstream_takes_the_rest() {
    let a = v4(10, 0, 0, 1, 80);
    let u = v4(10, 0, 0, 9, 8000);
    let t = table(
        vec![http("site", "10.0.0.9:8000")],
        vec![upstream(u, "10.0.0.9:8000")],
        vec![dir("site", "a", "/one", "/files")],
        vec![Some(a)],
    );
    match t.resolve("site", Some("/files/x")) {
        RoutingOutcome::ForwardToDirectory { target_address, .. } => assert_eq!(target_address, a),
        other => panic!("{:?}", other),
    }
    assert_eq!(
        t.resolve("site", Some("/elsewhere")),
        RoutingOutcome::ForwardToUpstream {
            target_address: u,
            https: false,
            rewritten_uri: plain(Authority::Named("10.0.0.9:8000".to_string()), "/elsewhere"),
        }
    );
}

#[test]
fn port_prefix_selects_the_dial_port() {
    let u = v4(10, 0, 0, 9, 80);
    let mut record = http("site", "10.0.0.9:80");
    record.proxy_ports_from_prefix = Some(vec![8080, 9090]);
    let t = table(vec![record], vec![upstream(u, "10.0.0.9:80")], vec![], vec![]);
    assert_eq!(
        t.resolve("site", Some("/8080/foo/bar")),
        RoutingOutcome::ForwardToUpstream {
            target_address: v4(10, 0, 0, 9, 8080),
            https: false,
            rewritten_uri: plain(Authority::Named("10.0.0.9:80".to_string()), "/foo/bar"),
        }
    );
}

#[test]
fn port_prefix_not_on_the_list_has_no_route() {
    let u = v4(10, 0, 0, 9, 80);
    let mut record = http("site", "10.0.0.9:80");
    record.proxy_ports_from_prefix = Some(vec![8080, 9090]);
    let t = table(vec![record], vec![upstream(u, "10.0.0.9:80")], vec![], vec![]);
    assert_eq!(t.resolve("site", Some("/7000/foo")), RoutingOutcome::NoRoute);
}

#[test]
fn port_prefix_edge_cases() {
    let u = v4(10, 0, 0, 9, 80);
    let mut record = http("site", "10.0.0.9:80");
    record.proxy_ports_from_prefix = Some(vec![8080, 9090]);
    record.https = Some(true);
    record.strip_route = Some(true);
    let t = table(vec![record], vec![upstream(u, "10.0.0.9:80")], vec![], vec![]);
    let forwarded = |path: &str| match t.resolve("site", Some(path)) {
        RoutingOutcome::ForwardToUpstream { target_address, https, rewritten_uri } => {
            assert!(https);
            assert!(rewritten_uri.https);
            Some((target_address.port, rewritten_uri.path_and_query.unwrap()))
        }
        RoutingOutcome::NoRoute => None,
        other => panic!("{:?}", other),
    };
    assert_eq!(forwarded("/9090"), Some((9090, "/".to_string())));
    assert_eq!(forwarded("/9090/"), Some((9090, "/".to_string())));
    assert_eq!(forwarded("/9090//x"), Some((9090, "//x".to_string())));
    assert_eq!(forwarded("/9090/a?b=c"), Some((9090, "/a?b=c".to_string())));
    assert_eq!(forwarded("x/8080/y"), Some((8080, "/y".to_string())));
    assert_eq!(forwarded("/9090?b=c"), None);
    assert_eq!(forwarded("/"), None);
    assert_eq!(forwarded(""), None);
    assert_eq!(forwarded("8080"), None);
    assert_eq!(forwarded("/port/x"), None);
    assert_eq!(forwarded("/99999/x"), None);
    assert_eq!(t.resolve("site", None), RoutingOutcome::NoRoute);
}

#[test]
fn strip_route_removes_the_matched_prefix() {
    let u = v4(10, 0, 0, 9, 80);
    let mut record = http("site", "10.0.0.9:80");
    record.routes = Some(vec!["/v1".to_string()]);
    record.strip_route = Some(true);
    let t = table(vec![record], vec![upstream(u, "10.0.0.9:80")], vec![], vec![]);
    assert_eq!(
        t.resolve("site", Some("/v1/thing")),
        RoutingOutcome::ForwardToUpstream {
            target_address: u,
            https: false,
            rewritten_uri: plain(Authority::Named("10.0.0.9:80".to_string()), "/thing"),
        }
    );
    assert_eq!(t.resolve("site", Some("/v2/thing")), RoutingOutcome::NoRoute);
    assert_eq!(t.resolve("site", None), RoutingOutcome::NoRoute);
}

#[test]
fn routes_are_kept_without_strip_route() {
    let u = v4(10, 0, 0, 9, 80);
    let w = v4(10, 0, 0, 8, 80);
    let mut first = http("site", "10.0.0.9:80");
    first.routes = Some(vec!["/v1".to_string(), "/v2".to_string()]);
    let second = http("site", "10.0.0.8:80");
    let t = table(
        vec![first, second],
        vec![upstream(u, "10.0.0.9:80"), upstream(w, "10.0.0.8:80")],
        vec![],
        vec![],
    );
    let target = |path: Option<&str>| match t.resolve("site", path) {
        RoutingOutcome::ForwardToUpstream { target_address, rewritten_uri, .. } => {
            (target_address, rewritten_uri.path_and_query)
        }
        other => panic!("{:?}", other),
    };
    assert_eq!(target(Some("/v2/x?y")), (u, Some("/v2/x?y".to_string())));
    assert_eq!(target(Some("/v3")), (w, Some("/v3".to_string())));
    assert_eq!(target(None), (w, None));
}

#[test]
fn unknown_host_has_no_route() {
    let u = v4(10, 0, 0, 9, 80);
    let t = table(vec![http("site", "10.0.0.9:80")], vec![upstream(u, "10.0.0.9:80")], vec![], vec![]);
    for path in [None, Some(""), Some("/"), Some("/8080/x"), Some("/v1/thing")] {
        assert_eq!(t.resolve("other", path), RoutingOutcome::NoRoute);
        assert_eq!(t.resolve("", path), RoutingOutcome::NoRoute);
    }
    assert_eq!(decide(&vec![], &vec![], Some("/x")), RoutingOutcome::NoRoute);
}

#[test]
fn decide_works_on_records_alone() {
    let u = v4(192, 168, 0, 1, 443);
    let record = HttpParsedRecord {
        upstream: Authority::Address(u),
        addr: u,
        routes: vec!["/a".to_string(), "/a/b".to_string()],
        https: true,
        strip_route: true,
        proxy_ports_from_prefix: None,
    };
    assert_eq!(
        decide(&vec![], &vec![record], Some("/a/b/c")),
        RoutingOutcome::ForwardToUpstream {
            target_address: u,
            https: true,
            rewritten_uri: RewrittenUri {
                https: true,
                authority: Authority::Address(u),
                path_and_query: Some("/b/c".to_string()),
            },
        }
    );
}

#[test]
fn non_ascii_paths_are_cut_by_characters() {
    let u = v4(10, 0, 0, 9, 80);
    let mut record = http("site", "10.0.0.9:80");
    record.routes = Some(vec!["/é".to_string()]);
    record.strip_route = Some(true);
    let t = table(vec![record], vec![upstream(u, "10.0.0.9:80")], vec![], vec![]);
    match t.resolve("site", Some("/é/ü?q")) {
        RoutingOutcome::ForwardToUpstream { rewritten_uri, .. } => {
            assert_eq!(rewritten_uri.path_and_query, Some("/ü?q".to_string()))
        }
        other => panic!("{:?}", other),
    }
}
