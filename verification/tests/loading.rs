use gateway_routing::address::{Authority, IpAddress, SocketAddress};
use gateway_routing::config::{
    is_catch_all, normalize_routes, ConfigRecord, DirParsedRecord, DirRecord, HttpParsedRecord,
    HttpRecord, TcpRecord,
};
use gateway_routing::table::{DirConfig, HttpConfig, TcpConfig};
use gateway_routing::resolver::{
    finish_lookup, plan_checked_upstream, plan_upstream, LookupOutcome, RecordError,
    ResolvedUpstream, UpstreamPlan,
};
use gateway_routing::text::parse_port;

fn addr(last: u8, port: u16) -> SocketAddress {
    SocketAddress::new(IpAddress::V4(u32::from_be_bytes([10, 0, 0, last])), port)
}

fn resolved(last: u8, port: u16) -> ResolvedUpstream {
    ResolvedUpstream { authority: Authority::Address(addr(last, port)), addr: addr(last, port) }
}

fn http(domain: &str, routes: Option<Vec<&str>>) -> HttpRecord {
    HttpRecord {
        domain: domain.to_string(),
        upstream: "up:80".to_string(),
        routes: routes.map(|r| r.into_iter().map(|s| s.to_string()).collect()),
        https: None,
        proxy_ports_from_prefix: None,
        strip_route: None,
    }
}

fn dir(domain: &str, path: &str, route: &str) -> DirRecord {
    DirRecord {
        domain: domain.to_string(),
        listen: "listen".to_string(),
        path: path.to_string(),
        route: route.to_string(),
    }
}

fn tcp(domain: &str, upstream: &str) -> TcpRecord {
    TcpRecord { domain: domain.to_string(), upstream: upstream.to_string() }
}

#[test]
fn parse_port_reads_decimal() {
    assert_eq!(parse_port("8080"), Some(8080));
    assert_eq!(parse_port("0"), Some(0));
    assert_eq!(parse_port("65535"), Some(65535));
    assert_eq!(parse_port("65536"), None);
    assert_eq!(parse_port("+80"), Some(80));
    assert_eq!(parse_port("00080"), Some(80));
    assert_eq!(parse_port("000000000000000000000080"), Some(80));
    assert_eq!(parse_port(""), None);
    assert_eq!(parse_port("+"), None);
    assert_eq!(parse_port("-1"), None);
    assert_eq!(parse_port("++1"), None);
    assert_eq!(parse_port("80 "), None);
    assert_eq!(parse_port(" 80"), None);
    assert_eq!(parse_port("8_0"), None);
    assert_eq!(parse_port("٣"), None);
    assert_eq!(parse_port("99999999999999999999"), None);
}

#[test]
fn parse_port_agrees_with_the_standard_parser() {
    let mut samples: Vec<String> = Vec::new();
    for n in 0u32..70000 {
        if n % 7 == 0 || n > 65500 {
            samples.push(n.to_string());
            samples.push(format!("+{}", n));
            samples.push(format!("0{}", n));
            samples.push(format!("{}x", n));
            samples.push(format!("-{}", n));
        }
    }
    for s in samples {
        assert_eq!(parse_port(&s), s.parse::<u16>().ok(), "{}", s);
    }
}

#[test]
fn literal_upstream_is_used_as_it_stands() {
    let a = addr(1, 8080);
    assert_eq!(
        plan_upstream("10.0.0.1:8080", Some(a), false),
        UpstreamPlan::Direct(ResolvedUpstream {
            authority: Authority::Named("10.0.0.1:8080".to_string()),
            addr: a,
        })
    );
}

#[test]
fn named_upstream_asks_for_a_lookup() {
    assert_eq!(
        plan_upstream("example.org:8443", None, true),
        UpstreamPlan::Lookup { hostname: "example.org".to_string(), port: 8443 }
    );
    let plan = plan_upstream("example.org:8443", None, true);
    assert_eq!(plan.pending_lookup(), Some("example.org"));
    assert_eq!(plan_upstream("10.0.0.1:1", Some(addr(1, 1)), true).pending_lookup(), None);
}

#[test]
fn upstream_is_rejected_for_each_reason() {
    let rejected = |e| UpstreamPlan::Rejected(e);
    assert_eq!(plan_upstream("example.org:80", None, false), rejected(RecordError::NoResolver));
    assert_eq!(plan_upstream("example.org", None, true), rejected(RecordError::InvalidUpstream));
    assert_eq!(plan_upstream("example.org:", None, true), rejected(RecordError::InvalidUpstream));
    assert_eq!(plan_upstream("example.org:http", None, true), rejected(RecordError::InvalidUpstream));
    assert_eq!(plan_upstream("example.org:65536", None, true), rejected(RecordError::InvalidUpstream));
    assert_eq!(plan_upstream("example.org", None, false), rejected(RecordError::InvalidUpstream));
    assert_eq!(plan_upstream("example.org:x", None, false), rejected(RecordError::InvalidUpstream));
}

#[test]
fn upstream_that_is_no_authority_is_rejected() {
    let rejected = UpstreamPlan::Rejected(RecordError::InvalidUpstream);
    assert_eq!(plan_upstream("", None, true), rejected);
    assert_eq!(plan_upstream("exa mple.org:80", None, true), rejected);
    assert_eq!(plan_upstream("a:b:80", None, true), rejected);
    assert_eq!(plan_upstream("example.org/x:80", None, true), rejected);
    assert_eq!(plan_upstream("exa mple.org:80", Some(addr(1, 80)), true), rejected);
    assert_eq!(
        plan_checked_upstream(true, "exa mple.org:80", None, true),
        UpstreamPlan::Lookup { hostname: "exa mple.org".to_string(), port: 80 }
    );
    assert_eq!(
        plan_checked_upstream(false, "example.org:80", None, true),
        UpstreamPlan::Rejected(RecordError::InvalidUpstream)
    );
}

#[test]
fn upstream_is_cut_at_its_last_colon() {
    assert_eq!(
        plan_checked_upstream(true, "a:b:80", None, true),
        UpstreamPlan::Lookup { hostname: "a:b".to_string(), port: 80 }
    );
    assert_eq!(
        plan_upstream("user@example.org:80", None, true),
        UpstreamPlan::Lookup { hostname: "user@example.org".to_string(), port: 80 }
    );
}

#[test]
fn lookup_outcome_gives_the_first_address() {
    let found = vec![IpAddress::V6(1), IpAddress::V4(7)];
    let first = SocketAddress { ip: IpAddress::V6(1), port: 443, flowinfo: 0, scope_id: 0 };
    assert_eq!(
        finish_lookup(443, LookupOutcome::Addresses(found.clone())),
        Ok(ResolvedUpstream { authority: Authority::Address(first), addr: first })
    );
    assert_eq!(finish_lookup(443, LookupOutcome::Addresses(vec![])), Err(RecordError::NoAddresses));
    assert_eq!(finish_lookup(443, LookupOutcome::Failed), Err(RecordError::ResolutionFailed));
    let plan = plan_upstream("example.org:443", None, true);
    assert_eq!(
        plan.conclude(Some(LookupOutcome::Addresses(found))),
        Ok(ResolvedUpstream { authority: Authority::Address(first), addr: first })
    );
    assert_eq!(
        plan_upstream("example.org:443", None, true).conclude(None),
        Err(RecordError::ResolutionFailed)
    );
    assert_eq!(
        plan_upstream("example.org", None, true).conclude(Some(LookupOutcome::Failed)),
        Err(RecordError::InvalidUpstream)
    );
    assert_eq!(
        plan_upstream("10.0.0.1:80", Some(addr(1, 80)), true).conclude(None).map(|r| r.addr),
        Ok(addr(1, 80))
    );
}

#[test]
fn routes_that_claim_everything_are_dropped() {
    assert!(is_catch_all(""));
    assert!(is_catch_all("/"));
    assert!(!is_catch_all("//"));
    assert!(!is_catch_all("/a"));
    assert!(!is_catch_all("a"));
    let routes: Vec<String> = ["", "/a", "/", "/b", "/", ""].iter().map(|s| s.to_string()).collect();
    assert_eq!(normalize_routes(routes), vec!["/a".to_string(), "/b".to_string()]);
    assert_eq!(normalize_routes(vec![]), Vec::<String>::new());
}

#[test]
fn parsed_record_holds_what_was_configured() {
    let record = HttpParsedRecord::try_parse(
        Ok(resolved(1, 80)),
        true,
        Some(vec![1, 2]),
        Some(vec!["/".to_string(), "/x".to_string()]),
        None,
    )
    .unwrap();
    assert_eq!(
        record,
        HttpParsedRecord {
            upstream: Authority::Address(addr(1, 80)),
            addr: addr(1, 80),
            routes: vec!["/x".to_string()],
            https: true,
            strip_route: false,
            proxy_ports_from_prefix: Some(vec![1, 2]),
        }
    );
    let record =
        HttpParsedRecord::try_parse(Ok(resolved(1, 80)), false, None, None, Some(true)).unwrap();
    assert!(record.routes.is_empty());
    assert!(record.strip_route);
    assert_eq!(
        HttpParsedRecord::try_parse(Err(RecordError::NoAddresses), false, None, None, None),
        Err(RecordError::NoAddresses)
    );
}

#[test]
fn accepted_http_records_never_hold_a_catch_all_route() {
    let config = ConfigRecord::new(
        vec![],
        vec![
            http("a", Some(vec!["", "/", "/x", "/"])),
            http("a", Some(vec!["/"])),
            http("b", None),
            http("b", Some(vec!["/y", ""])),
        ],
        vec![],
    );
    let upstreams = (1..=4).map(|i| Ok(resolved(i, 80))).collect();
    let table = config.to_route_config(upstreams, vec![]);
    let mut seen = 0;
    for host in ["a", "b"] {
        for record in table.http.get(&host.to_string()).unwrap() {
            seen += 1;
            assert!(record.routes.iter().all(|r| r != "" && r != "/"));
        }
    }
    assert_eq!(seen, 4);
    let a = table.http.get(&"a".to_string()).unwrap();
    assert_eq!(a[0].routes, vec!["/x".to_string()]);
    assert!(a[1].routes.is_empty());
}

#[test]
fn failed_resolution_drops_only_its_own_record() {
    let config = ConfigRecord::new(
        vec![],
        vec![http("a", None), http("a", None), http("b", None), http("a", None), http("c", None)],
        vec![],
    );
    let upstreams = vec![
        Ok(resolved(1, 80)),
        Err(RecordError::ResolutionFailed),
        Err(RecordError::InvalidUpstream),
        Ok(resolved(4, 80)),
    ];
    let table = config.to_route_config(upstreams, vec![]);
    let a: Vec<SocketAddress> =
        table.http.get(&"a".to_string()).unwrap().iter().map(|r| r.addr).collect();
    assert_eq!(a, vec![addr(1, 80), addr(4, 80)]);
    assert!(table.http.get(&"b".to_string()).is_none());
    assert!(table.http.get(&"c".to_string()).is_none());
}

#[test]
fn each_listener_keeps_one_root_mount() {
    let l1 = addr(1, 9000);
    let l2 = addr(2, 9000);
    let dirs = vec![
        dir("a", "/srv/1", "/"),
        dir("a", "/srv/2", "/x"),
        dir("b", "/srv/3", "/"),
        dir("b", "/srv/4", "/"),
        dir("c", "/srv/5", "/"),
        dir("c", "/srv/6", "/y"),
    ];
    let listens = vec![Some(l1), Some(l1), Some(l1), Some(l2), None];
    let table = DirConfig::from_record(dirs, listens);
    let paths = |records: Option<&Vec<DirParsedRecord>>| -> Vec<String> {
        records.map(|r| r.iter().map(|d| d.path.clone()).collect()).unwrap_or_default()
    };
    assert_eq!(paths(table.listen.get(&l1)), vec!["/srv/1", "/srv/2"]);
    assert_eq!(paths(table.listen.get(&l2)), vec!["/srv/4"]);
    assert_eq!(paths(table.domain.get(&"a".to_string())), vec!["/srv/1", "/srv/2"]);
    assert_eq!(paths(table.domain.get(&"b".to_string())), vec!["/srv/4"]);
    assert_eq!(paths(table.domain.get(&"c".to_string())), Vec::<String>::new());
    assert_eq!(table.listen.len(), 2);
    for i in 0..table.listen.len() {
        let (listen, records) = table.listen.entry_at(i);
        assert!(records.iter().all(|r| r.listen == *listen));
        assert!(records.iter().filter(|r| r.route == "/").count() <= 1);
    }
}

#[test]
fn tcp_groups_are_keyed_by_port() {
    let groups = vec![
        ("80".to_string(), vec![tcp("a", "one"), tcp("b", "two"), tcp("a", "three")]),
        ("port".to_string(), vec![tcp("a", "four")]),
        ("443".to_string(), vec![tcp("a", "five")]),
        ("+443".to_string(), vec![tcp("b", "six")]),
        ("70000".to_string(), vec![tcp("a", "seven")]),
    ];
    let table = TcpConfig::from_groups(&groups);
    assert_eq!(table.get(80, "a"), Some(&tcp("a", "three")));
    assert_eq!(table.get(80, "b"), Some(&tcp("b", "two")));
    assert_eq!(table.get(80, "c"), None);
    assert_eq!(table.get(443, "a"), None);
    assert_eq!(table.get(443, "b"), Some(&tcp("b", "six")));
    assert_eq!(table.get(4464, "a"), None);
    assert_eq!(table.0.len(), 2);
    let whole = ConfigRecord::new(groups, vec![], vec![]).to_route_config(vec![], vec![]);
    assert_eq!(whole.tcp.get(80, "a"), Some(&tcp("a", "three")));
}

#[test]
fn directory_records_are_turned_down_for_each_reason() {
    let l = addr(1, 9000);
    let mut table = DirConfig::new();
    assert_eq!(table.add(&dir("a", "/srv/1", "/x"), None), Err(RecordError::InvalidListen));
    assert_eq!(table.add(&dir("a", "/srv/1", "/"), None), Err(RecordError::InvalidListen));
    assert_eq!(table.listen.len(), 0);
    assert_eq!(table.add(&dir("a", "/srv/1", "/"), Some(l)), Ok(()));
    assert_eq!(table.add(&dir("b", "/srv/2", "/"), Some(l)), Err(RecordError::DuplicateRoot));
    assert_eq!(table.add(&dir("b", "/srv/3", "/"), Some(addr(1, 9001))), Ok(()));
    assert_eq!(table.add(&dir("b", "/srv/4", "/z"), Some(l)), Ok(()));
    assert_eq!(
        table.listen.get(&l).unwrap(),
        &vec![
            DirParsedRecord { listen: l, path: "/srv/1".to_string(), route: "/".to_string() },
            DirParsedRecord { listen: l, path: "/srv/4".to_string(), route: "/z".to_string() },
        ]
    );
    assert_eq!(table.domain.get(&"b".to_string()).unwrap().len(), 2);
}

#[test]
fn tcp_group_with_a_bad_key_is_turned_down() {
    let mut table = TcpConfig::new();
    assert_eq!(table.add_group("http", vec![tcp("a", "one")]), Err(RecordError::InvalidPort));
    assert_eq!(table.add_group("", vec![]), Err(RecordError::InvalidPort));
    assert_eq!(table.0.len(), 0);
    assert_eq!(table.add_group("25", vec![tcp("a", "one")]), Ok(()));
    assert_eq!(table.add_group("025", vec![]), Ok(()));
    assert_eq!(table.get(25, "a"), None);
    assert_eq!(table.0.len(), 1);
}

#[test]
fn http_records_are_filed_in_order() {
    let mut table = HttpConfig::new();
    assert!(table.get(&"a".to_string()).is_none());
    for (host, last) in [("a", 1), ("b", 2), ("a", 3)] {
        let record =
            HttpParsedRecord::try_parse(Ok(resolved(last, 80)), false, None, None, None).unwrap();
        table.add(host.to_string(), record);
    }
    let a: Vec<SocketAddress> =
        table.get(&"a".to_string()).unwrap().iter().map(|r| r.addr).collect();
    assert_eq!(a, vec![addr(1, 80), addr(3, 80)]);
    assert_eq!(table.get(&"b".to_string()).unwrap().len(), 1);
}
