//! Routing records: as they are written in a configuration, and as they stand
//! in the routing table once their addresses are known.

use crate::address::{Authority, AuthorityView, SocketAddress};
use crate::resolver::{RecordError, ResolvedUpstream, ResolvedUpstreamView};
use vstd::prelude::*;

verus! {

/// A TCP forwarding entry.  It is carried in the table and read by nothing yet.
#[derive(Clone, Debug, PartialEq, Eq)]
pub struct TcpRecord {
    pub domain: String,
    pub upstream: String,
}

/// An HTTP upstream as written in the configuration.
#[derive(Clone, Debug, PartialEq, Eq)]
pub struct HttpRecord {
    pub domain: String,
    pub upstream: String,
    pub routes: Option<Vec<String>>,
    pub https: Option<bool>,
    pub proxy_ports_from_prefix: Option<Vec<u16>>,
    pub strip_route: Option<bool>,
}

/// A directory mount as written in the configuration.
#[derive(Clone, Debug, PartialEq, Eq)]
pub struct DirRecord {
    pub domain: String,
    pub listen: String,
    pub path: String,
    pub route: String,
}

/// An HTTP upstream whose address is known.
#[derive(Clone, Debug, PartialEq, Eq)]
pub struct HttpParsedRecord {
    pub upstream: Authority,
    pub addr: SocketAddress,
    pub routes: Vec<String>,
    pub https: bool,
    pub strip_route: bool,
    pub proxy_ports_from_prefix: Option<Vec<u16>>,
}

/// A directory mount whose listener address is known.
#[derive(Clone, Debug, PartialEq, Eq)]
pub struct DirParsedRecord {
    pub listen: SocketAddress,
    pub path: String,
    pub route: String,
}

/// The characters of each text of `texts`.
pub open spec fn texts_of(texts: Seq<String>) -> Seq<Seq<char>> {
    texts.map_values(|t: String| t@)
}

/// What a [`TcpRecord`] holds.
pub struct TcpRecordView {
    pub domain: Seq<char>,
    pub upstream: Seq<char>,
}

impl View for TcpRecord {
    type V = TcpRecordView;

    open spec fn view(&self) -> TcpRecordView {
        TcpRecordView { domain: self.domain@, upstream: self.upstream@ }
    }
}

/// What an [`HttpParsedRecord`] holds.
pub struct HttpParsedRecordView {
    pub upstream: AuthorityView,
    pub addr: SocketAddress,
    pub routes: Seq<Seq<char>>,
    pub https: bool,
    pub strip_route: bool,
    pub proxy_ports_from_prefix: Option<Seq<u16>>,
}

impl View for HttpParsedRecord {
    type V = HttpParsedRecordView;

    open spec fn view(&self) -> HttpParsedRecordView {
        HttpParsedRecordView {
            upstream: self.upstream@,
            addr: self.addr,
            routes: texts_of(self.routes@),
            https: self.https,
            strip_route: self.strip_route,
            proxy_ports_from_prefix: match self.proxy_ports_from_prefix {
                Some(ports) => Some(ports@),
                None => None,
            },
        }
    }
}

/// What a [`DirParsedRecord`] holds.
pub struct DirParsedRecordView {
    pub listen: SocketAddress,
    pub path: Seq<char>,
    pub route: Seq<char>,
}

impl View for DirParsedRecord {
    type V = DirParsedRecordView;

    open spec fn view(&self) -> DirParsedRecordView {
        DirParsedRecordView { listen: self.listen, path: self.path@, route: self.route@ }
    }
}

/// Whether `route` claims every path: the empty text and `/` do.
pub open spec fn claims_everything(route: Seq<char>) -> bool {
    route.len() == 0 || route =~= seq!['/']
}

/// The routes of `routes` that narrow the paths a record answers for, in order.
pub open spec fn narrowing_routes(routes: Seq<Seq<char>>) -> Seq<Seq<char>> {
    routes.filter(|r: Seq<char>| !claims_everything(r))
}

impl HttpParsedRecordView {
    /// No route of a record in the table claims every path: such a record has
    /// no routes at all.
    pub open spec fn wf(self) -> bool {
        forall|i: int| 0 <= i < self.routes.len() ==> !claims_everything(#[trigger] self.routes[i])
    }
}

/// Whether the text `route` claims every path.
pub fn is_catch_all(route: &str) -> (b: bool)
    ensures
        b == claims_everything(route@),
{
    let n = route.unicode_len();
    if n == 0 {
        true
    } else if n == 1 {
        let c = route.get_char(0);
        assert(c == '/' ==> route@ =~= seq!['/']);
        c == '/'
    } else {
        false
    }
}

/// Drops from `routes` the entries that claim every path.
pub fn normalize_routes(routes: Vec<String>) -> (kept: Vec<String>)
    ensures
        texts_of(kept@) == narrowing_routes(texts_of(routes@)),
{
    let mut kept: Vec<String> = Vec::new();
    let mut i: usize = 0;
    let ghost all = texts_of(routes@);
    let ghost keep = |r: Seq<char>| !claims_everything(r);
    assert(all.take(0).filter(keep) =~= Seq::<Seq<char>>::empty()) by {
        reveal(Seq::filter);
    }
    assert(texts_of(kept@) =~= Seq::<Seq<char>>::empty());
    while i < routes.len()
        invariant
            i <= routes.len(),
            all == texts_of(routes@),
            keep == (|r: Seq<char>| !claims_everything(r)),
            texts_of(kept@) == all.take(i as int).filter(keep),
        decreases routes.len() - i,
    {
        let ghost before = texts_of(kept@);
        assert(all.take(i + 1).drop_last() =~= all.take(i as int));
        assert(all.take(i + 1).last() == routes@[i as int]@);
        assert(all.take(i + 1).filter(keep) == if keep(routes@[i as int]@) {
            before.push(routes@[i as int]@)
        } else {
            before
        }) by {
            reveal(Seq::filter);
        }
        if !is_catch_all(routes[i].as_str()) {
            kept.push(routes[i].clone());
            assert(texts_of(kept@) =~= before.push(routes@[i as int]@));
        }
        i += 1;
    }
    assert(all.take(routes.len() as int) =~= all);
    kept
}

/// What the TCP records of `records` hold, in order.
pub open spec fn tcp_views(records: Seq<TcpRecord>) -> Seq<TcpRecordView> {
    records.map_values(|r: TcpRecord| r@)
}

/// What the directory records of `records` hold, in order.
pub open spec fn dir_views(records: Seq<DirParsedRecord>) -> Seq<DirParsedRecordView> {
    records.map_values(|r: DirParsedRecord| r@)
}

/// What the HTTP records of `records` hold, in order.
pub open spec fn http_views(records: Seq<HttpParsedRecord>) -> Seq<HttpParsedRecordView> {
    records.map_values(|r: HttpParsedRecord| r@)
}

/// The routes of a record, none where the configuration names none.
pub open spec fn routes_view(routes: Option<Vec<String>>) -> Seq<Seq<char>> {
    match routes {
        Some(texts) => texts_of(texts@),
        None => Seq::empty(),
    }
}

/// The allow-list of ports of a record.
pub open spec fn ports_view(ports: Option<Vec<u16>>) -> Option<Seq<u16>> {
    match ports {
        Some(list) => Some(list@),
        None => None,
    }
}

/// The flag `flag`, unset where the configuration does not name it.
pub open spec fn flag_or_unset(flag: Option<bool>) -> bool {
    match flag {
        Some(value) => value,
        None => false,
    }
}

/// The record that stands in the table for an upstream that resolved to
/// `resolved`: its routes are those of the configuration that narrow the
/// paths, and `strip_route` is unset where the configuration leaves it out.
pub open spec fn parsed_http(
    resolved: ResolvedUpstreamView,
    https: bool,
    ports: Option<Seq<u16>>,
    routes: Seq<Seq<char>>,
    strip_route: Option<bool>,
) -> HttpParsedRecordView {
    HttpParsedRecordView {
        upstream: resolved.authority,
        addr: resolved.addr,
        routes: narrowing_routes(routes),
        https,
        strip_route: flag_or_unset(strip_route),
        proxy_ports_from_prefix: ports,
    }
}

/// No route that is kept claims every path.
pub proof fn lemma_narrowing_routes(routes: Seq<Seq<char>>)
    ensures
        forall|i: int|
            0 <= i < narrowing_routes(routes).len() ==> !claims_everything(
                #[trigger] narrowing_routes(routes)[i],
            ),
{
    let keep = |r: Seq<char>| !claims_everything(r);
    assert forall|i: int| 0 <= i < narrowing_routes(routes).len() implies !claims_everything(
        #[trigger] narrowing_routes(routes)[i],
    ) by {
        routes.lemma_filter_pred(keep, i);
    }
}

impl HttpParsedRecord {
    /// Builds the record of an upstream from the outcome of its resolution
    /// and the other fields of its configuration.  An upstream that did not
    /// resolve gives no record, and the reason is handed on.
    pub fn try_parse(
        resolved: Result<ResolvedUpstream, RecordError>,
        https: bool,
        proxy_ports_from_prefix: Option<Vec<u16>>,
        routes: Option<Vec<String>>,
        strip_route: Option<bool>,
    ) -> (result: Result<HttpParsedRecord, RecordError>)
        ensures
            match resolved {
                Ok(upstream) => result matches Ok(record) && record@ == parsed_http(
                    upstream@,
                    https,
                    ports_view(proxy_ports_from_prefix),
                    routes_view(routes),
                    strip_route,
                ) && record@.wf(),
                Err(error) => result matches Err(e) && e == error,
            },
    {
        let upstream = match resolved {
            Ok(upstream) => upstream,
            Err(error) => {
                return Err(error);
            },
        };
        proof {
            lemma_narrowing_routes(routes_view(routes));
        }
        let kept = match routes {
            Some(texts) => normalize_routes(texts),
            None => {
                assert(narrowing_routes(Seq::empty()) =~= Seq::<Seq<char>>::empty()) by {
                    reveal(Seq::filter);
                }
                assert(texts_of(Seq::<String>::empty()) =~= Seq::<Seq<char>>::empty());
                Vec::new()
            },
        };
        Ok(
            HttpParsedRecord {
                upstream: upstream.authority,
                addr: upstream.addr,
                routes: kept,
                https,
                strip_route: match strip_route {
                    Some(value) => value,
                    None => false,
                },
                proxy_ports_from_prefix,
            },
        )
    }
}

/// A configuration as it was read: TCP groups by the text of their port, HTTP
/// upstreams and directory mounts, each in the order in which it was written.
#[derive(Clone, Debug)]
pub struct ConfigRecord {
    pub tcp: Vec<(String, Vec<TcpRecord>)>,
    pub http: Vec<HttpRecord>,
    pub dir: Vec<DirRecord>,
}

impl ConfigRecord {
    /// A configuration with the given sections.
    pub fn new(tcp: Vec<(String, Vec<TcpRecord>)>, http: Vec<HttpRecord>, dir: Vec<DirRecord>) -> (config:
        ConfigRecord)
        ensures
            config.tcp == tcp,
            config.http == http,
            config.dir == dir,
    {
        ConfigRecord { tcp, http, dir }
    }
}

} // verus!
