//! Building the routing table from a configuration.
//!
//! Each record is judged by itself: one that fails is dropped, and the others
//! enter the table in the order in which they were written.

use crate::address::SocketAddress;
use crate::config::{
    flag_or_unset, lemma_narrowing_routes, parsed_http, ports_view, routes_view, tcp_views,
    texts_of, ConfigRecord, DirParsedRecordView, DirRecord, HttpParsedRecord,
    HttpParsedRecordView, HttpRecord, TcpRecord, TcpRecordView,
};
use crate::resolver::{RecordError, ResolvedUpstream};
use crate::table::{
    at_most_one_root, has_root, is_root, DirConfig, HttpConfig, RouteConfig, TcpConfig,
};
use crate::text::port_of;
use vstd::prelude::*;

verus! {

/// The mounts that the first `n` directory records give the listener `addr`.
///
/// `listens[i]` is the address that the `listen` text of record `i` denotes,
/// `None` where it denotes none; a record without such an entry counts as one
/// whose text denotes none.  A record enters unless it is a root mount and its
/// listener has one already.
pub open spec fn mounts_before(
    records: Seq<DirRecord>,
    listens: Seq<Option<SocketAddress>>,
    addr: SocketAddress,
    n: int,
) -> Seq<DirParsedRecordView>
    decreases n,
{
    if n <= 0 || n > records.len() {
        Seq::empty()
    } else {
        let before = mounts_before(records, listens, addr, n - 1);
        let record = records[n - 1];
        if n - 1 < listens.len() && listens[n - 1] == Some(addr) && !(is_root(record.route@)
            && has_root(before)) {
            before.push(DirParsedRecordView { listen: addr, path: record.path@, route: record.route@ })
        } else {
            before
        }
    }
}

/// What becomes of directory record `i`: the record that enters the table, or
/// the reason why it is dropped.
pub open spec fn dir_verdict(
    records: Seq<DirRecord>,
    listens: Seq<Option<SocketAddress>>,
    i: int,
) -> Result<DirParsedRecordView, RecordError> {
    if i >= listens.len() {
        Err(RecordError::InvalidListen)
    } else {
        match listens[i] {
            None => Err(RecordError::InvalidListen),
            Some(addr) => if is_root(records[i].route@) && has_root(
                mounts_before(records, listens, addr, i),
            ) {
                Err(RecordError::DuplicateRoot)
            } else {
                Ok(
                    DirParsedRecordView {
                        listen: addr,
                        path: records[i].path@,
                        route: records[i].route@,
                    },
                )
            },
        }
    }
}

/// The directory records that the first `n` records give the host `host`, in
/// the order of the configuration.
pub open spec fn dirs_before(
    records: Seq<DirRecord>,
    listens: Seq<Option<SocketAddress>>,
    host: Seq<char>,
    n: int,
) -> Seq<DirParsedRecordView>
    decreases n,
{
    if n <= 0 || n > records.len() {
        Seq::empty()
    } else {
        let before = dirs_before(records, listens, host, n - 1);
        match dir_verdict(records, listens, n - 1) {
            Ok(record) => if records[n - 1].domain@ == host {
                before.push(record)
            } else {
                before
            },
            Err(_) => before,
        }
    }
}

/// No listener gets a second root mount.
pub proof fn lemma_one_root_per_listener(
    records: Seq<DirRecord>,
    listens: Seq<Option<SocketAddress>>,
    addr: SocketAddress,
    n: int,
)
    ensures
        at_most_one_root(mounts_before(records, listens, addr, n)),
        forall|m: int|
            0 <= m < mounts_before(records, listens, addr, n).len() ==> (
            #[trigger] mounts_before(records, listens, addr, n)[m]).listen == addr,
    decreases n,
{
    if 0 < n <= records.len() {
        lemma_one_root_per_listener(records, listens, addr, n - 1);
        let before = mounts_before(records, listens, addr, n - 1);
        let all = mounts_before(records, listens, addr, n);
        if all.len() > before.len() {
            assert forall|a: int, b: int| 0 <= a < b < all.len() implies !(is_root(
                #[trigger] all[a].route,
            ) && is_root(#[trigger] all[b].route)) by {
                if b == before.len() && is_root(all[b].route) && is_root(all[a].route) {
                    assert(is_root(before[a].route));
                }
            }
        }
    }
}

/// What becomes of HTTP record `i`: the record that enters the table, or the
/// reason why it is dropped.
///
/// `upstreams[i]` is what the resolution of the record's upstream came to; a
/// record without such an entry counts as one whose resolution failed.
pub open spec fn http_verdict(
    records: Seq<HttpRecord>,
    upstreams: Seq<Result<ResolvedUpstream, RecordError>>,
    i: int,
) -> Result<HttpParsedRecordView, RecordError> {
    if i >= upstreams.len() {
        Err(RecordError::ResolutionFailed)
    } else {
        match upstreams[i] {
            Ok(resolved) => Ok(
                parsed_http(
                    resolved@,
                    flag_or_unset(records[i].https),
                    ports_view(records[i].proxy_ports_from_prefix),
                    routes_view(records[i].routes),
                    records[i].strip_route,
                ),
            ),
            Err(error) => Err(error),
        }
    }
}

/// The HTTP records that the first `n` records give the host `host`, in the
/// order of the configuration.
pub open spec fn https_before(
    records: Seq<HttpRecord>,
    upstreams: Seq<Result<ResolvedUpstream, RecordError>>,
    host: Seq<char>,
    n: int,
) -> Seq<HttpParsedRecordView>
    decreases n,
{
    if n <= 0 || n > records.len() {
        Seq::empty()
    } else {
        let before = https_before(records, upstreams, host, n - 1);
        match http_verdict(records, upstreams, n - 1) {
            Ok(record) => if records[n - 1].domain@ == host {
                before.push(record)
            } else {
                before
            },
            Err(_) => before,
        }
    }
}

/// The records of the TCP group that, among the first `n` groups, listens on
/// `port`: those of the last group whose key spells that port.
pub open spec fn tcp_group_before(groups: Seq<(String, Vec<TcpRecord>)>, port: u16, n: int) -> Seq<
    TcpRecordView,
>
    decreases n,
{
    if n <= 0 || n > groups.len() {
        Seq::empty()
    } else if port_of(groups[n - 1].0@) == Some(port) {
        tcp_views(groups[n - 1].1@)
    } else {
        tcp_group_before(groups, port, n - 1)
    }
}

/// Every HTTP record that enters the table is free of routes that claim every
/// path.
pub proof fn lemma_accepted_routes_narrow(
    records: Seq<HttpRecord>,
    upstreams: Seq<Result<ResolvedUpstream, RecordError>>,
    host: Seq<char>,
    n: int,
)
    ensures
        forall|m: int|
            0 <= m < https_before(records, upstreams, host, n).len() ==> (
            #[trigger] https_before(records, upstreams, host, n)[m]).wf(),
    decreases n,
{
    if 0 < n <= records.len() {
        lemma_accepted_routes_narrow(records, upstreams, host, n - 1);
        lemma_narrowing_routes(routes_view(records[n - 1].routes));
        let before = https_before(records, upstreams, host, n - 1);
        let all = https_before(records, upstreams, host, n);
        assert forall|m: int| 0 <= m < all.len() implies (#[trigger] all[m]).wf() by {
            if m < before.len() {
                assert(all[m] == before[m]);
            }
        }
    }
}

/// A record whose upstream resolved enters the table under its host, whatever
/// became of the other records.
pub proof fn lemma_resolved_record_enters(
    records: Seq<HttpRecord>,
    upstreams: Seq<Result<ResolvedUpstream, RecordError>>,
    i: int,
    n: int,
)
    requires
        0 <= i < n <= records.len(),
        i < upstreams.len(),
        upstreams[i] is Ok,
    ensures
        http_verdict(records, upstreams, i) is Ok,
        https_before(records, upstreams, records[i].domain@, n).contains(
            http_verdict(records, upstreams, i)->Ok_0,
        ),
    decreases n,
{
    let host = records[i].domain@;
    let record = http_verdict(records, upstreams, i)->Ok_0;
    let all = https_before(records, upstreams, host, n);
    if i == n - 1 {
        assert(all.last() == record);
    } else {
        lemma_resolved_record_enters(records, upstreams, i, n - 1);
        let before = https_before(records, upstreams, host, n - 1);
        let m = choose|m: int| 0 <= m < before.len() && before[m] == record;
        assert(all[m] == record);
    }
}

/// A copy of the texts `texts`.
pub fn clone_texts(texts: &Vec<String>) -> (copy: Vec<String>)
    ensures
        texts_of(copy@) == texts_of(texts@),
{
    let mut copy: Vec<String> = Vec::new();
    let mut i: usize = 0;
    while i < texts.len()
        invariant
            i <= texts.len(),
            copy@.len() == i,
            forall|j: int| 0 <= j < i ==> copy@[j]@ == texts@[j]@,
        decreases texts.len() - i,
    {
        copy.push(texts[i].clone());
        i += 1;
    }
    assert(texts_of(copy@) =~= texts_of(texts@));
    copy
}

/// A copy of the ports `ports`.
pub fn clone_ports(ports: &Vec<u16>) -> (copy: Vec<u16>)
    ensures
        copy@ == ports@,
{
    let mut copy: Vec<u16> = Vec::new();
    let mut i: usize = 0;
    while i < ports.len()
        invariant
            i <= ports.len(),
            copy@ == ports@.take(i as int),
        decreases ports.len() - i,
    {
        copy.push(ports[i]);
        assert(copy@ =~= ports@.take(i + 1));
        i += 1;
    }
    assert(ports@.take(ports@.len() as int) =~= ports@);
    copy
}

/// A copy of the TCP records `records`.
pub fn clone_tcp(records: &Vec<TcpRecord>) -> (copy: Vec<TcpRecord>)
    ensures
        tcp_views(copy@) == tcp_views(records@),
{
    let mut copy: Vec<TcpRecord> = Vec::new();
    let mut i: usize = 0;
    while i < records.len()
        invariant
            i <= records.len(),
            copy@.len() == i,
            forall|j: int| 0 <= j < i ==> copy@[j]@ == records@[j]@,
        decreases records.len() - i,
    {
        copy.push(
            TcpRecord { domain: records[i].domain.clone(), upstream: records[i].upstream.clone() },
        );
        i += 1;
    }
    assert(tcp_views(copy@) =~= tcp_views(records@));
    copy
}

impl TcpConfig {
    /// Builds the TCP index from the groups of a configuration.  A group whose
    /// key spells no port is dropped; of two groups on one port the later
    /// stands.
    pub fn from_groups(groups: &Vec<(String, Vec<TcpRecord>)>) -> (table: TcpConfig)
        ensures
            table.0.wf(),
            forall|port: u16| #[trigger]
                table.group_of(port) == tcp_group_before(groups@, port, groups@.len() as int),
    {
        let mut table = TcpConfig::new();
        let mut i: usize = 0;
        while i < groups.len()
            invariant
                i <= groups.len(),
                table.0.wf(),
                forall|port: u16| #[trigger]
                    table.group_of(port) == tcp_group_before(groups@, port, i as int),
            decreases groups.len() - i,
        {
            let ghost before = table;
            let records = clone_tcp(&groups[i].1);
            let _ = table.add_group(groups[i].0.as_str(), records);
            assert forall|port: u16| #[trigger]
                table.group_of(port) == tcp_group_before(groups@, port, i + 1) by {
                assert(before.group_of(port) == tcp_group_before(groups@, port, i as int));
            }
            i += 1;
        }
        table
    }
}

impl HttpConfig {
    /// Builds the HTTP index from the records of a configuration and the
    /// outcome of the resolution of each upstream.  A record whose upstream
    /// did not resolve is dropped; the others enter in the order of the
    /// configuration.
    pub fn from_records(
        records: &Vec<HttpRecord>,
        upstreams: &Vec<Result<ResolvedUpstream, RecordError>>,
    ) -> (table: HttpConfig)
        ensures
            table.wf(),
            forall|host: Seq<char>| #[trigger]
                table.upstreams_of(host) == https_before(
                    records@,
                    upstreams@,
                    host,
                    records@.len() as int,
                ),
    {
        let mut table = HttpConfig::new();
        let mut i: usize = 0;
        while i < records.len()
            invariant
                i <= records.len(),
                table.wf(),
                forall|host: Seq<char>| #[trigger]
                    table.upstreams_of(host) == https_before(records@, upstreams@, host, i as int),
            decreases records.len() - i,
        {
            let ghost before = table;
            let record = &records[i];
            let resolved: Result<ResolvedUpstream, RecordError> = if i < upstreams.len() {
                match &upstreams[i] {
                    Ok(upstream) => Ok(upstream.clone()),
                    Err(error) => Err(*error),
                }
            } else {
                Err(RecordError::ResolutionFailed)
            };
            let https = match record.https {
                Some(value) => value,
                None => false,
            };
            let ports = match &record.proxy_ports_from_prefix {
                Some(list) => Some(clone_ports(list)),
                None => None,
            };
            let routes = match &record.routes {
                Some(texts) => Some(clone_texts(texts)),
                None => None,
            };
            match HttpParsedRecord::try_parse(resolved, https, ports, routes, record.strip_route) {
                Ok(parsed) => {
                    assert(Ok::<HttpParsedRecordView, RecordError>(parsed@) == http_verdict(
                        records@,
                        upstreams@,
                        i as int,
                    ));
                    table.add(record.domain.clone(), parsed);
                },
                Err(error) => {
                    assert(http_verdict(records@, upstreams@, i as int) is Err);
                },
            }
            assert forall|host: Seq<char>| #[trigger]
                table.upstreams_of(host) == https_before(records@, upstreams@, host, i + 1) by {
                assert(before.upstreams_of(host) == https_before(
                    records@,
                    upstreams@,
                    host,
                    i as int,
                ));
            }
            i += 1;
        }
        table
    }
}

impl DirConfig {
    /// Builds the directory indices from the records `dir` of a configuration.
    ///
    /// `listens[i]` is the address that the `listen` text of record `i`
    /// denotes, `None` where it is no socket address literal.  Such a record is
    /// dropped, and so is a root mount whose listener has one already; the
    /// others enter both indices in the order of the configuration.
    pub fn from_record(dir: Vec<DirRecord>, listens: Vec<Option<SocketAddress>>) -> (table: DirConfig)
        ensures
            table.wf(),
            forall|host: Seq<char>| #[trigger]
                table.mounts_of(host) == dirs_before(dir@, listens@, host, dir@.len() as int),
            forall|addr: SocketAddress| #[trigger]
                table.served_at(addr) == mounts_before(dir@, listens@, addr, dir@.len() as int),
    {
        let mut table = DirConfig::new();
        let mut i: usize = 0;
        while i < dir.len()
            invariant
                i <= dir.len(),
                table.wf(),
                forall|host: Seq<char>| #[trigger]
                    table.mounts_of(host) == dirs_before(dir@, listens@, host, i as int),
                forall|addr: SocketAddress| #[trigger]
                    table.served_at(addr) == mounts_before(dir@, listens@, addr, i as int),
            decreases dir.len() - i,
        {
            let ghost before = table;
            let listen: Option<SocketAddress> = if i < listens.len() {
                listens[i]
            } else {
                None
            };
            let _ = table.add(&dir[i], listen);
            proof {
                if let Some(addr) = listen {
                    assert(before.served_at(addr) == mounts_before(dir@, listens@, addr, i as int));
                }
                assert(before.verdict(dir@[i as int], listen) == dir_verdict(
                    dir@,
                    listens@,
                    i as int,
                ));
                assert forall|host: Seq<char>| #[trigger]
                    table.mounts_of(host) == dirs_before(dir@, listens@, host, i + 1) by {
                    assert(before.mounts_of(host) == dirs_before(dir@, listens@, host, i as int));
                }
                assert forall|addr: SocketAddress| #[trigger]
                    table.served_at(addr) == mounts_before(dir@, listens@, addr, i + 1) by {
                    assert(before.served_at(addr) == mounts_before(
                        dir@,
                        listens@,
                        addr,
                        i as int,
                    ));
                }
            }
            i += 1;
        }
        table
    }
}

impl ConfigRecord {
    /// Builds the routing table of the configuration.
    ///
    /// `upstreams[i]` is what the resolution of the upstream of HTTP record
    /// `i` came to, and `listens[i]` the address that the `listen` text of
    /// directory record `i` denotes.  A record that fails is dropped and the
    /// others enter: no record keeps another one out, but for a second root
    /// mount on one listener.
    pub fn to_route_config(
        self,
        upstreams: Vec<Result<ResolvedUpstream, RecordError>>,
        listens: Vec<Option<SocketAddress>>,
    ) -> (table: RouteConfig)
        ensures
            table.wf(),
            forall|port: u16| #[trigger]
                table.tcp.group_of(port) == tcp_group_before(
                    self.tcp@,
                    port,
                    self.tcp@.len() as int,
                ),
            forall|host: Seq<char>| #[trigger]
                table.http.upstreams_of(host) == https_before(
                    self.http@,
                    upstreams@,
                    host,
                    self.http@.len() as int,
                ),
            forall|host: Seq<char>| #[trigger]
                table.dir.mounts_of(host) == dirs_before(
                    self.dir@,
                    listens@,
                    host,
                    self.dir@.len() as int,
                ),
            forall|addr: SocketAddress| #[trigger]
                table.dir.served_at(addr) == mounts_before(
                    self.dir@,
                    listens@,
                    addr,
                    self.dir@.len() as int,
                ),
    {
        let tcp = TcpConfig::from_groups(&self.tcp);
        let http = HttpConfig::from_records(&self.http, &upstreams);
        let dir = DirConfig::from_record(self.dir, listens);
        RouteConfig { tcp, http, dir }
    }
}

} // verus!
