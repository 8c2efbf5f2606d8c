//! The routing table: the records that were accepted, filed by the host that
//! they answer for, by the address that serves them, and by port.

use crate::address::SocketAddress;
use crate::config::{
    dir_views, http_views, tcp_views, DirParsedRecord, DirParsedRecordView, DirRecord,
    HttpParsedRecord, HttpParsedRecordView, TcpRecord, TcpRecordView,
};
use crate::index::Index;
use crate::resolver::RecordError;
use crate::text::{parse_port, port_of, str_eq};
use vstd::prelude::*;

verus! {

/// Whether `route` is the root mount `/`.
pub open spec fn is_root(route: Seq<char>) -> bool {
    route =~= seq!['/']
}

/// Whether one of `mounts` is a root mount.
pub open spec fn has_root(mounts: Seq<DirParsedRecordView>) -> bool {
    exists|m: int| 0 <= m < mounts.len() && is_root(#[trigger] mounts[m].route)
}

/// Whether at most one of `mounts` is a root mount.
pub open spec fn at_most_one_root(mounts: Seq<DirParsedRecordView>) -> bool {
    forall|a: int, b: int|
        0 <= a < b < mounts.len() ==> !(is_root(#[trigger] mounts[a].route) && is_root(
            #[trigger] mounts[b].route,
        ))
}

/// Whether the text `route` is the root mount.
pub fn is_root_route(route: &str) -> (b: bool)
    ensures
        b == is_root(route@),
{
    let n = route.unicode_len();
    if n == 1 {
        let c = route.get_char(0);
        c == '/'
    } else {
        false
    }
}

/// Whether one of `mounts` is a root mount.
pub fn holds_root(mounts: &Vec<DirParsedRecord>) -> (b: bool)
    ensures
        b == has_root(dir_views(mounts@)),
{
    let mut i: usize = 0;
    while i < mounts.len()
        invariant
            i <= mounts.len(),
            forall|m: int| 0 <= m < i ==> !is_root(#[trigger] dir_views(mounts@)[m].route),
        decreases mounts.len() - i,
    {
        assert(dir_views(mounts@)[i as int] == mounts@[i as int]@);
        if is_root_route(mounts[i].route.as_str()) {
            assert(is_root(dir_views(mounts@)[i as int].route));
            return true;
        }
        i += 1;
    }
    false
}

/// The directory mounts of a routing table: by the host that they answer for,
/// and by the address that serves them.
#[derive(Clone, Debug)]
pub struct DirConfig {
    pub domain: Index<String, DirParsedRecord>,
    pub listen: Index<SocketAddress, DirParsedRecord>,
}

impl DirConfig {
    /// The directory records of `host`, in the order of the configuration.
    pub open spec fn mounts_of(&self, host: Seq<char>) -> Seq<DirParsedRecordView> {
        dir_views(self.domain.records(host))
    }

    /// The mounts that the listener at `addr` serves, in the order of the
    /// configuration.
    pub open spec fn served_at(&self, addr: SocketAddress) -> Seq<DirParsedRecordView> {
        dir_views(self.listen.records(addr))
    }

    /// No listener serves two root mounts, each mount stands under its own
    /// listener, and no key stands twice.
    pub open spec fn wf(&self) -> bool {
        &&& self.domain.wf()
        &&& self.listen.wf()
        &&& forall|addr: SocketAddress| at_most_one_root(#[trigger] self.served_at(addr))
        &&& forall|addr: SocketAddress, m: int|
            0 <= m < self.served_at(addr).len() ==> (#[trigger] self.served_at(addr)[m]).listen
                == addr
    }

    /// The table without mounts.
    pub fn new() -> (table: DirConfig)
        ensures
            table.wf(),
            forall|host: Seq<char>| #[trigger]
                table.mounts_of(host) == Seq::<DirParsedRecordView>::empty(),
            forall|addr: SocketAddress| #[trigger]
                table.served_at(addr) == Seq::<DirParsedRecordView>::empty(),
    {
        let table = DirConfig { domain: Index::new(), listen: Index::new() };
        assert(dir_views(Seq::<DirParsedRecord>::empty()) =~= Seq::<DirParsedRecordView>::empty());
        table
    }

    /// What becomes of `record` when it is offered to the table: the mount
    /// that enters, or the reason why it is turned down.
    ///
    /// `listen` is the address that the `listen` text of the record denotes,
    /// `None` where it is no socket address literal.  A root mount is turned
    /// down where its listener serves one already.
    pub open spec fn verdict(&self, record: DirRecord, listen: Option<SocketAddress>) -> Result<
        DirParsedRecordView,
        RecordError,
    > {
        match listen {
            None => Err(RecordError::InvalidListen),
            Some(addr) => if is_root(record.route@) && has_root(self.served_at(addr)) {
                Err(RecordError::DuplicateRoot)
            } else {
                Ok(DirParsedRecordView { listen: addr, path: record.path@, route: record.route@ })
            },
        }
    }

    /// Offers `record` to the table.  A record that is accepted is filed under
    /// its host and under its listener, behind what is there; one that is
    /// turned down leaves the table as it was.
    pub fn add(&mut self, record: &DirRecord, listen: Option<SocketAddress>) -> (result: Result<
        (),
        RecordError,
    >)
        ensures
            match old(self).verdict(*record, listen) {
                Ok(mount) => {
                    &&& result is Ok
                    &&& forall|host: Seq<char>| #[trigger]
                        final(self).mounts_of(host) == if host == record.domain@ {
                            old(self).mounts_of(host).push(mount)
                        } else {
                            old(self).mounts_of(host)
                        }
                    &&& forall|addr: SocketAddress| #[trigger]
                        final(self).served_at(addr) == if addr == mount.listen {
                            old(self).served_at(addr).push(mount)
                        } else {
                            old(self).served_at(addr)
                        }
                },
                Err(error) => result == Err::<(), RecordError>(error) && *final(self) == *old(self),
            },
            old(self).wf() ==> final(self).wf(),
    {
        let addr = match listen {
            Some(addr) => addr,
            None => {
                return Err(RecordError::InvalidListen);
            },
        };
        if is_root_route(record.route.as_str()) {
            let taken = match self.listen.get(&addr) {
                Some(mounts) => holds_root(mounts),
                None => {
                    assert(dir_views(Seq::<DirParsedRecord>::empty()) =~= Seq::<
                        DirParsedRecordView,
                    >::empty());
                    false
                },
            };
            if taken {
                return Err(RecordError::DuplicateRoot);
            }
        }
        let for_host = DirParsedRecord {
            listen: addr,
            path: record.path.clone(),
            route: record.route.clone(),
        };
        let for_listener = DirParsedRecord {
            listen: addr,
            path: record.path.clone(),
            route: record.route.clone(),
        };
        let ghost mount = for_host@;
        assert(for_listener@ == mount);
        self.domain.push(record.domain.clone(), for_host);
        self.listen.push(addr, for_listener);
        proof {
            assert forall|host: Seq<char>| #[trigger]
                self.mounts_of(host) == if host == record.domain@ {
                    old(self).mounts_of(host).push(mount)
                } else {
                    old(self).mounts_of(host)
                } by {
                if host == record.domain@ {
                    assert(dir_views(old(self).domain.records(host).push(for_host)) =~= dir_views(
                        old(self).domain.records(host),
                    ).push(mount));
                }
            }
            assert forall|other: SocketAddress| #[trigger]
                self.served_at(other) == if other == addr {
                    old(self).served_at(other).push(mount)
                } else {
                    old(self).served_at(other)
                } by {
                if other == addr {
                    assert(dir_views(old(self).listen.records(other).push(for_listener))
                        =~= dir_views(old(self).listen.records(other)).push(mount));
                }
            }
            if old(self).wf() {
                assert forall|other: SocketAddress| at_most_one_root(
                    #[trigger] self.served_at(other),
                ) by {
                    let before = old(self).served_at(other);
                    let after = self.served_at(other);
                    assert(at_most_one_root(before));
                    if other == addr {
                        assert forall|a: int, b: int| 0 <= a < b < after.len() implies !(is_root(
                            #[trigger] after[a].route,
                        ) && is_root(#[trigger] after[b].route)) by {
                            if b == before.len() && is_root(after[a].route) && is_root(
                                after[b].route,
                            ) {
                                assert(is_root(before[a].route));
                            }
                        }
                    }
                }
                assert forall|other: SocketAddress, m: int|
                    0 <= m < self.served_at(other).len() implies (#[trigger] self.served_at(
                    other,
                )[m]).listen == other by {
                    let before = old(self).served_at(other);
                    if m < before.len() {
                        assert(before[m].listen == other);
                    }
                }
            }
        }
        Ok(())
    }
}

/// The HTTP upstreams of a routing table, by the host that they answer for.
#[derive(Clone, Debug)]
pub struct HttpConfig(pub Index<String, HttpParsedRecord>);

impl HttpConfig {
    /// The HTTP records of `host`, in the order of the configuration.
    pub open spec fn upstreams_of(&self, host: Seq<char>) -> Seq<HttpParsedRecordView> {
        http_views(self.0.records(host))
    }

    /// No route of a record claims every path, and no host stands twice.
    pub open spec fn wf(&self) -> bool {
        &&& self.0.wf()
        &&& forall|host: Seq<char>, m: int|
            0 <= m < self.upstreams_of(host).len() ==> (#[trigger] self.upstreams_of(host)[m]).wf()
    }

    /// The HTTP records of `host`.
    pub fn get(&self, host: &String) -> (found: Option<&Vec<HttpParsedRecord>>)
        ensures
            match found {
                Some(records) => http_views(records@) == self.upstreams_of(host@),
                None => self.upstreams_of(host@) == Seq::<HttpParsedRecordView>::empty(),
            },
    {
        let found = self.0.get(host);
        assert(http_views(Seq::<HttpParsedRecord>::empty()) =~= Seq::<
            HttpParsedRecordView,
        >::empty());
        found
    }
}

/// The record of `domain` among `records`: the last one that names it.
pub open spec fn tcp_record_of(records: Seq<TcpRecordView>, domain: Seq<char>) -> Option<
    TcpRecordView,
>
    decreases records.len(),
{
    if records.len() == 0 {
        None
    } else if records.last().domain == domain {
        Some(records.last())
    } else {
        tcp_record_of(records.drop_last(), domain)
    }
}

/// The TCP entries of a routing table, by the port that they listen on.
#[derive(Clone, Debug)]
pub struct TcpConfig(pub Index<u16, TcpRecord>);

impl TcpConfig {
    /// The records of the group that listens on `port`.
    pub open spec fn group_of(&self, port: u16) -> Seq<TcpRecordView> {
        tcp_views(self.0.records(port))
    }

    /// The record of `domain` on `port`.
    pub fn get(&self, port: u16, domain: &str) -> (found: Option<&TcpRecord>)
        ensures
            match found {
                Some(record) => tcp_record_of(self.group_of(port), domain@) == Some(record@),
                None => tcp_record_of(self.group_of(port), domain@) is None,
            },
    {
        let group = match self.0.get(&port) {
            Some(group) => group,
            None => {
                assert(tcp_views(Seq::<TcpRecord>::empty()) =~= Seq::<TcpRecordView>::empty());
                return None;
            },
        };
        let ghost all = tcp_views(group@);
        let mut i: usize = group.len();
        assert(all.take(i as int) =~= all);
        while i > 0
            invariant
                i <= group.len(),
                all == tcp_views(group@),
                all == self.group_of(port),
                tcp_record_of(all, domain@) == tcp_record_of(all.take(i as int), domain@),
            decreases i,
        {
            assert(all.take(i as int).last() == group@[i - 1]@);
            assert(all.take(i as int).drop_last() =~= all.take(i - 1));
            if str_eq(group[i - 1].domain.as_str(), domain) {
                return Some(&group[i - 1]);
            }
            i -= 1;
        }
        None
    }
}

/// The routing table: what every request is answered from.
#[derive(Clone, Debug)]
pub struct RouteConfig {
    pub tcp: TcpConfig,
    pub http: HttpConfig,
    pub dir: DirConfig,
}

impl Default for RouteConfig {
    /// The table without records: no host has a route.
    fn default() -> (table: RouteConfig)
        ensures
            table.wf(),
            forall|port: u16| #[trigger] table.tcp.group_of(port) == Seq::<TcpRecordView>::empty(),
            forall|host: Seq<char>| #[trigger]
                table.http.upstreams_of(host) == Seq::<HttpParsedRecordView>::empty(),
            forall|host: Seq<char>| #[trigger]
                table.dir.mounts_of(host) == Seq::<DirParsedRecordView>::empty(),
            forall|addr: SocketAddress| #[trigger]
                table.dir.served_at(addr) == Seq::<DirParsedRecordView>::empty(),
    {
        let table = RouteConfig {
            tcp: TcpConfig::new(),
            http: HttpConfig::new(),
            dir: DirConfig::new(),
        };
        table
    }
}

impl RouteConfig {
    /// What holds of every table that was built from a configuration.
    pub open spec fn wf(&self) -> bool {
        &&& self.tcp.0.wf()
        &&& self.http.wf()
        &&& self.dir.wf()
    }
}

impl HttpConfig {
    /// The table without upstreams.
    pub fn new() -> (table: HttpConfig)
        ensures
            table.wf(),
            forall|host: Seq<char>| #[trigger]
                table.upstreams_of(host) == Seq::<HttpParsedRecordView>::empty(),
    {
        let table = HttpConfig(Index::new());
        assert(http_views(Seq::<HttpParsedRecord>::empty()) =~= Seq::<
            HttpParsedRecordView,
        >::empty());
        table
    }

    /// Files `record` under `domain`, behind the records that are there.
    pub fn add(&mut self, domain: String, record: HttpParsedRecord)
        ensures
            forall|host: Seq<char>| #[trigger]
                final(self).upstreams_of(host) == if host == domain@ {
                    old(self).upstreams_of(host).push(record@)
                } else {
                    old(self).upstreams_of(host)
                },
            old(self).wf() && record@.wf() ==> final(self).wf(),
    {
        self.0.push(domain, record);
        proof {
            assert forall|host: Seq<char>| #[trigger]
                self.upstreams_of(host) == if host == domain@ {
                    old(self).upstreams_of(host).push(record@)
                } else {
                    old(self).upstreams_of(host)
                } by {
                if host == domain@ {
                    assert(http_views(old(self).0.records(host).push(record)) =~= http_views(
                        old(self).0.records(host),
                    ).push(record@));
                }
            }
            if old(self).wf() && record@.wf() {
                assert forall|host: Seq<char>, m: int|
                    0 <= m < self.upstreams_of(host).len() implies (#[trigger] self.upstreams_of(
                    host,
                )[m]).wf() by {
                    let before = old(self).upstreams_of(host);
                    if m < before.len() {
                        assert(before[m].wf());
                    }
                }
            }
        }
    }
}

impl TcpConfig {
    /// The table without TCP entries.
    pub fn new() -> (table: TcpConfig)
        ensures
            table.0.wf(),
            forall|port: u16| #[trigger] table.group_of(port) == Seq::<TcpRecordView>::empty(),
    {
        let table = TcpConfig(Index::new());
        assert(tcp_views(Seq::<TcpRecord>::empty()) =~= Seq::<TcpRecordView>::empty());
        table
    }

    /// Files the group `records` under the port that `key` spells, in place of
    /// a group that was filed there.  A key that spells no port is turned
    /// down, and the table stays as it was.
    pub fn add_group(&mut self, key: &str, records: Vec<TcpRecord>) -> (result: Result<
        (),
        RecordError,
    >)
        ensures
            match port_of(key@) {
                Some(port) => {
                    &&& result is Ok
                    &&& forall|other: u16| #[trigger]
                        final(self).group_of(other) == if other == port {
                            tcp_views(records@)
                        } else {
                            old(self).group_of(other)
                        }
                },
                None => result == Err::<(), RecordError>(RecordError::InvalidPort) && *final(self)
                    == *old(self),
            },
            old(self).0.wf() ==> final(self).0.wf(),
    {
        match parse_port(key) {
            Some(port) => {
                self.0.put(port, records);
                Ok(())
            },
            None => Err(RecordError::InvalidPort),
        }
    }
}

} // verus!
