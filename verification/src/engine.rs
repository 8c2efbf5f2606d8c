//! The routing decision: from the records of a host and the path of a request
//! to the upstream that the request is forwarded to.

use crate::address::{Authority, AuthorityView, SocketAddress};
use crate::config::{
    dir_views, http_views, texts_of, DirParsedRecord, DirParsedRecordView, HttpParsedRecord,
    HttpParsedRecordView,
};
use crate::table::RouteConfig;
use crate::text::{
    chars_of, find_first, first_index, lemma_first_index, parse_port_range, port_of, starts_with,
};
use vstd::prelude::*;
use vstd::string::StringExecFns;

verus! {

/// The target that the outbound request is rewritten to.
#[derive(Clone, Debug, PartialEq, Eq)]
pub struct RewrittenUri {
    /// Whether the scheme is `https`; it is `http` otherwise.
    pub https: bool,
    pub authority: Authority,
    /// The path and query that is forwarded; `None` where the request had none.
    pub path_and_query: Option<String>,
}

/// What a [`RewrittenUri`] holds.
pub struct RewrittenUriView {
    pub https: bool,
    pub authority: AuthorityView,
    pub path_and_query: Option<Seq<char>>,
}

impl View for RewrittenUri {
    type V = RewrittenUriView;

    open spec fn view(&self) -> RewrittenUriView {
        RewrittenUriView {
            https: self.https,
            authority: self.authority@,
            path_and_query: match self.path_and_query {
                Some(text) => Some(text@),
                None => None,
            },
        }
    }
}

/// The decision for one request.
#[derive(Clone, Debug, PartialEq, Eq)]
pub enum RoutingOutcome {
    /// The request goes to the listener of a directory mount.
    ForwardToDirectory { target_address: SocketAddress, rewritten_uri: RewrittenUri },
    /// The request goes to an HTTP upstream, over TLS if `https` is set.
    ForwardToUpstream { target_address: SocketAddress, https: bool, rewritten_uri: RewrittenUri },
    /// Nothing answers for the request.
    NoRoute,
}

/// What a [`RoutingOutcome`] holds.
pub enum RoutingOutcomeView {
    ForwardToDirectory { target_address: SocketAddress, rewritten_uri: RewrittenUriView },
    ForwardToUpstream { target_address: SocketAddress, https: bool, rewritten_uri: RewrittenUriView },
    NoRoute,
}

impl View for RoutingOutcome {
    type V = RoutingOutcomeView;

    open spec fn view(&self) -> RoutingOutcomeView {
        match self {
            RoutingOutcome::ForwardToDirectory {
                target_address,
                rewritten_uri,
            } => RoutingOutcomeView::ForwardToDirectory {
                target_address: *target_address,
                rewritten_uri: rewritten_uri@,
            },
            RoutingOutcome::ForwardToUpstream {
                target_address,
                https,
                rewritten_uri,
            } => RoutingOutcomeView::ForwardToUpstream {
                target_address: *target_address,
                https: *https,
                rewritten_uri: rewritten_uri@,
            },
            RoutingOutcome::NoRoute => RoutingOutcomeView::NoRoute,
        }
    }
}

/// The characters of a text that may be absent.
pub open spec fn text_view(text: Option<&str>) -> Option<Seq<char>> {
    match text {
        Some(t) => Some(t@),
        None => None,
    }
}

/// The path of a request target: what stands before its first `?`.
pub open spec fn path_of(target: Seq<char>) -> Seq<char> {
    target.take(first_index(target, '?'))
}

/// The first directory record at or after position `k` whose route is a
/// prefix of `path`.
pub open spec fn first_mount_from(dirs: Seq<DirParsedRecordView>, path: Seq<char>, k: int) -> Option<
    int,
>
    decreases dirs.len() - k,
{
    if k < 0 || k >= dirs.len() {
        None
    } else if dirs[k].route.is_prefix_of(path) {
        Some(k)
    } else {
        first_mount_from(dirs, path, k + 1)
    }
}

/// What `first_mount_from` finds is the first record, from `k` on, whose
/// route is a prefix of `path`; it finds none only where there is none.
pub proof fn lemma_first_mount(dirs: Seq<DirParsedRecordView>, path: Seq<char>, k: int)
    requires
        0 <= k,
    ensures
        match first_mount_from(dirs, path, k) {
            Some(i) => k <= i < dirs.len() && dirs[i].route.is_prefix_of(path) && forall|j: int|
                k <= j < i ==> !(#[trigger] dirs[j]).route.is_prefix_of(path),
            None => forall|j: int| k <= j < dirs.len() ==> !(#[trigger] dirs[j]).route.is_prefix_of(path),
        },
    decreases dirs.len() - k,
{
    if k < dirs.len() && !dirs[k].route.is_prefix_of(path) {
        lemma_first_mount(dirs, path, k + 1);
    }
}

/// The first route at or after position `k` that is a prefix of `path`.
pub open spec fn first_route_from(routes: Seq<Seq<char>>, path: Seq<char>, k: int) -> Option<int>
    decreases routes.len() - k,
{
    if k < 0 || k >= routes.len() {
        None
    } else if routes[k].is_prefix_of(path) {
        Some(k)
    } else {
        first_route_from(routes, path, k + 1)
    }
}

/// What `first_route_from` finds is the first route, from `k` on, that is a
/// prefix of `path`; it finds none only where there is none.
pub proof fn lemma_first_route(routes: Seq<Seq<char>>, path: Seq<char>, k: int)
    requires
        0 <= k,
    ensures
        match first_route_from(routes, path, k) {
            Some(i) => k <= i < routes.len() && routes[i].is_prefix_of(path) && forall|j: int|
                k <= j < i ==> !(#[trigger] routes[j]).is_prefix_of(path),
            None => forall|j: int| k <= j < routes.len() ==> !(#[trigger] routes[j]).is_prefix_of(path),
        },
    decreases routes.len() - k,
{
    if k < routes.len() && !routes[k].is_prefix_of(path) {
        lemma_first_route(routes, path, k + 1);
    }
}

/// Whether `record` answers for a request with the target `target`: a record
/// without routes answers for every request, another one for the requests
/// whose path begins with one of its routes.
pub open spec fn answers_for(record: HttpParsedRecordView, target: Option<Seq<char>>) -> bool {
    record.routes.len() == 0 || (target matches Some(text) && first_route_from(
        record.routes,
        path_of(text),
        0,
    ) is Some)
}

/// The first HTTP record at or after position `k` that answers for `target`.
pub open spec fn first_upstream_from(
    records: Seq<HttpParsedRecordView>,
    target: Option<Seq<char>>,
    k: int,
) -> Option<int>
    decreases records.len() - k,
{
    if k < 0 || k >= records.len() {
        None
    } else if answers_for(records[k], target) {
        Some(k)
    } else {
        first_upstream_from(records, target, k + 1)
    }
}

/// The text between the first and the second `/` of `target`: the segment that
/// names a port.  It is empty where `target` holds no `/`.
pub open spec fn port_segment(target: Seq<char>) -> Seq<char> {
    let first = first_index(target, '/');
    if first >= target.len() {
        Seq::empty()
    } else {
        let tail = target.skip(first + 1);
        tail.take(first_index(tail, '/'))
    }
}

/// What follows the second `/` of `target`; empty where there is no second `/`.
pub open spec fn after_port_segment(target: Seq<char>) -> Seq<char> {
    let first = first_index(target, '/');
    if first >= target.len() {
        Seq::empty()
    } else {
        let tail = target.skip(first + 1);
        let second = first_index(tail, '/');
        if second >= tail.len() {
            Seq::empty()
        } else {
            tail.skip(second + 1)
        }
    }
}

/// The target that is forwarded to a record without port indirection: the
/// request's own, less the route that matched if the record strips it.
pub open spec fn forwarded_target(record: HttpParsedRecordView, target: Option<Seq<char>>) -> Option<
    Seq<char>,
> {
    match target {
        None => None,
        Some(text) => match first_route_from(record.routes, path_of(text), 0) {
            Some(i) => if record.strip_route {
                Some(text.skip(record.routes[i].len() as int))
            } else {
                Some(text)
            },
            None => Some(text),
        },
    }
}

/// The outcome once `record` has been selected for a request.
///
/// With an allow-list of ports the segment after the first `/` names the port
/// that is dialled; it must be on the list, and it is taken out of the target,
/// which always keeps a leading `/`.
pub open spec fn forward(record: HttpParsedRecordView, target: Option<Seq<char>>) -> RoutingOutcomeView {
    match record.proxy_ports_from_prefix {
        Some(allowed) => match target {
            None => RoutingOutcomeView::NoRoute,
            Some(text) => match port_of(port_segment(text)) {
                Some(port) => if allowed.contains(port) {
                    RoutingOutcomeView::ForwardToUpstream {
                        target_address: record.addr.spec_with_port(port),
                        https: record.https,
                        rewritten_uri: RewrittenUriView {
                            https: record.https,
                            authority: record.upstream,
                            path_and_query: Some(seq!['/'] + after_port_segment(text)),
                        },
                    }
                } else {
                    RoutingOutcomeView::NoRoute
                },
                None => RoutingOutcomeView::NoRoute,
            },
        },
        None => RoutingOutcomeView::ForwardToUpstream {
            target_address: record.addr,
            https: record.https,
            rewritten_uri: RewrittenUriView {
                https: record.https,
                authority: record.upstream,
                path_and_query: forwarded_target(record, target),
            },
        },
    }
}

/// The decision for a request with the target `target` on a host with the
/// directory records `dirs` and the HTTP records `upstreams`.
///
/// Directory records come first.  A host that has some needs a target: without
/// one nothing answers.  The first directory record whose route is a prefix
/// of the path takes the request as it is, over plain HTTP.  Otherwise the first HTTP
/// record that answers for the request takes it.
pub open spec fn route(
    dirs: Seq<DirParsedRecordView>,
    upstreams: Seq<HttpParsedRecordView>,
    target: Option<Seq<char>>,
) -> RoutingOutcomeView {
    if dirs.len() > 0 && target is None {
        RoutingOutcomeView::NoRoute
    } else if dirs.len() > 0 && first_mount_from(dirs, path_of(target->0), 0) is Some {
        let mount = dirs[first_mount_from(dirs, path_of(target->0), 0)->0];
        RoutingOutcomeView::ForwardToDirectory {
            target_address: mount.listen,
            rewritten_uri: RewrittenUriView {
                https: false,
                authority: AuthorityView::Address(mount.listen),
                path_and_query: target,
            },
        }
    } else {
        match first_upstream_from(upstreams, target, 0) {
            Some(i) => forward(upstreams[i], target),
            None => RoutingOutcomeView::NoRoute,
        }
    }
}

/// A request target, held both as text and as characters.
pub struct Target<'a> {
    text: &'a str,
    chars: Vec<char>,
    path_len: usize,
}

impl<'a> Target<'a> {
    /// What the fields promise of each other.
    pub closed spec fn wf(&self) -> bool {
        &&& self.chars@ == self.text@
        &&& self.path_len == first_index(self.text@, '?')
        &&& self.path_len <= self.text@.len()
    }

    /// The characters of the target.
    pub closed spec fn view(&self) -> Seq<char> {
        self.text@
    }

    /// Reads `text` as a request target.
    pub fn new(text: &'a str) -> (target: Target<'a>)
        ensures
            target.wf(),
            target.view() == text@,
    {
        let chars = chars_of(text);
        assert(chars@.skip(0) =~= chars@);
        let path_len = find_first(&chars, 0, '?');
        Target { text, chars, path_len }
    }

    /// Whether the path of the target begins with `route`.
    pub fn path_starts_with(&self, route: &str) -> (b: bool)
        requires
            self.wf(),
        ensures
            b == route@.is_prefix_of(path_of(self.view())),
    {
        let prefix = chars_of(route);
        starts_with(&self.chars, self.path_len, &prefix)
    }

    /// The first of `routes` that is a prefix of the path of the target.
    pub fn first_route(&self, routes: &Vec<String>) -> (found: Option<usize>)
        requires
            self.wf(),
        ensures
            match found {
                Some(i) => first_route_from(texts_of(routes@), path_of(self.view()), 0) == Some(
                    i as int,
                ) && i < routes.len(),
                None => first_route_from(texts_of(routes@), path_of(self.view()), 0) is None,
            },
    {
        let ghost all = texts_of(routes@);
        let ghost path = path_of(self.view());
        let mut i: usize = 0;
        while i < routes.len()
            invariant
                self.wf(),
                i <= routes.len(),
                all == texts_of(routes@),
                path == path_of(self.view()),
                first_route_from(all, path, 0) == first_route_from(all, path, i as int),
            decreases routes.len() - i,
        {
            assert(all[i as int] == routes@[i as int]@);
            if self.path_starts_with(routes[i].as_str()) {
                return Some(i);
            }
            i += 1;
        }
        None
    }

    /// The target as an owned text.
    pub fn to_text(&self) -> (text: String)
        requires
            self.wf(),
        ensures
            text@ == self.view(),
    {
        self.text.to_owned()
    }

    /// The target without its first `n` characters.
    pub fn skip(&self, n: usize) -> (text: String)
        requires
            self.wf(),
            n <= self.view().len(),
        ensures
            text@ == self.view().skip(n as int),
    {
        let rest = self.text.substring_char(n, self.chars.len());
        assert(rest@ =~= self.view().skip(n as int));
        rest.to_owned()
    }

    /// Cuts the target at its first two `/`: the port that the segment between
    /// them spells, and a `/` followed by what comes after it.
    pub fn split_port(&self) -> (parts: (Option<u16>, String))
        requires
            self.wf(),
        ensures
            parts.0 == port_of(port_segment(self.view())),
            parts.1@ == seq!['/'] + after_port_segment(self.view()),
    {
        let n: usize = self.chars.len();
        let ghost text = self.view();
        let mut rest = String::from_str("/");
        proof {
            reveal_strlit("/");
            assert(rest@ =~= seq!['/']);
        }
        assert(self.chars@.skip(0) =~= text);
        let first: usize = find_first(&self.chars, 0, '/');
        if first >= n {
            assert(self.chars@.subrange(n as int, n as int) =~= Seq::<char>::empty());
            let port = parse_port_range(&self.chars, n, n);
            assert(rest@ =~= seq!['/'] + Seq::<char>::empty());
            return (port, rest);
        }
        let ghost tail = text.skip(first + 1);
        let second: usize = find_first(&self.chars, first + 1, '/');
        assert(self.chars@.subrange(first + 1, second as int) =~= tail.take(
            second - (first + 1),
        ));
        let port = parse_port_range(&self.chars, first + 1, second);
        if second < n {
            let after = self.text.substring_char(second + 1, n);
            assert(after@ =~= tail.skip(second - (first + 1) + 1));
            rest.append(after);
        } else {
            assert(rest@ =~= seq!['/'] + Seq::<char>::empty());
        }
        (port, rest)
    }
}

/// Whether `port` is one of `allowed`.
pub fn port_allowed(allowed: &Vec<u16>, port: u16) -> (b: bool)
    ensures
        b == allowed@.contains(port),
{
    let mut i: usize = 0;
    while i < allowed.len()
        invariant
            i <= allowed.len(),
            forall|j: int| 0 <= j < i ==> allowed@[j] != port,
        decreases allowed.len() - i,
    {
        if allowed[i] == port {
            return true;
        }
        i += 1;
    }
    false
}

/// The characters of a target that may be absent.
pub open spec fn target_view(target: &Option<Target<'_>>) -> Option<Seq<char>> {
    match target {
        Some(t) => Some(t.view()),
        None => None,
    }
}

/// Whether a target that may be absent is sound.
pub open spec fn target_wf(target: &Option<Target<'_>>) -> bool {
    match target {
        Some(t) => t.wf(),
        None => true,
    }
}

impl HttpParsedRecord {
    /// Whether the record answers for a request with the target `target`.
    pub fn answers(&self, target: &Option<Target<'_>>) -> (b: bool)
        requires
            target_wf(target),
        ensures
            b == answers_for(self@, target_view(target)),
    {
        if self.routes.len() == 0 {
            return true;
        }
        match target {
            Some(t) => t.first_route(&self.routes).is_some(),
            None => false,
        }
    }

    /// The outcome for a request with the target `target`, once this record
    /// has been selected for it.
    pub fn forward(&self, target: &Option<Target<'_>>) -> (outcome: RoutingOutcome)
        requires
            target_wf(target),
        ensures
            outcome@ == forward(self@, target_view(target)),
    {
        match &self.proxy_ports_from_prefix {
            Some(allowed) => {
                let t = match target {
                    Some(t) => t,
                    None => {
                        return RoutingOutcome::NoRoute;
                    },
                };
                let (port, rest) = t.split_port();
                match port {
                    Some(port) => {
                        if port_allowed(allowed, port) {
                            RoutingOutcome::ForwardToUpstream {
                                target_address: self.addr.with_port(port),
                                https: self.https,
                                rewritten_uri: RewrittenUri {
                                    https: self.https,
                                    authority: self.upstream.clone(),
                                    path_and_query: Some(rest),
                                },
                            }
                        } else {
                            RoutingOutcome::NoRoute
                        }
                    },
                    None => RoutingOutcome::NoRoute,
                }
            },
            None => {
                let path_and_query = match target {
                    None => None,
                    Some(t) => match t.first_route(&self.routes) {
                        Some(i) => {
                            if self.strip_route {
                                let skipped: usize = self.routes[i].as_str().unicode_len();
                                proof {
                                    lemma_first_route(texts_of(self.routes@), path_of(t.view()), 0);
                                    assert(texts_of(self.routes@)[i as int]
                                        == self.routes@[i as int]@);
                                }
                                Some(t.skip(skipped))
                            } else {
                                Some(t.to_text())
                            }
                        },
                        None => Some(t.to_text()),
                    },
                };
                RoutingOutcome::ForwardToUpstream {
                    target_address: self.addr,
                    https: self.https,
                    rewritten_uri: RewrittenUri {
                        https: self.https,
                        authority: self.upstream.clone(),
                        path_and_query,
                    },
                }
            },
        }
    }
}

/// Decides where a request with the target `path_and_query` goes, on a host
/// with the directory records `dirs` and the HTTP records `upstreams`.
#[verifier::loop_isolation(false)]
pub fn decide(
    dirs: &Vec<DirParsedRecord>,
    upstreams: &Vec<HttpParsedRecord>,
    path_and_query: Option<&str>,
) -> (outcome: RoutingOutcome)
    ensures
        outcome@ == route(dir_views(dirs@), http_views(upstreams@), text_view(path_and_query)),
{
    let target: Option<Target<'_>> = match path_and_query {
        Some(text) => Some(Target::new(text)),
        None => None,
    };
    let ghost goal = text_view(path_and_query);
    assert(target_view(&target) == goal);
    if dirs.len() > 0 {
        let t = match &target {
            Some(t) => t,
            None => {
                return RoutingOutcome::NoRoute;
            },
        };
        let ghost mounts = dir_views(dirs@);
        let ghost path = path_of(t.view());
        let mut i: usize = 0;
        while i < dirs.len()
            invariant
                t.wf(),
                i <= dirs.len(),
                mounts == dir_views(dirs@),
                path == path_of(t.view()),
                first_mount_from(mounts, path, 0) == first_mount_from(mounts, path, i as int),
            decreases dirs.len() - i,
        {
            assert(mounts[i as int] == dirs@[i as int]@);
            if t.path_starts_with(dirs[i].route.as_str()) {
                return RoutingOutcome::ForwardToDirectory {
                    target_address: dirs[i].listen,
                    rewritten_uri: RewrittenUri {
                        https: false,
                        authority: Authority::Address(dirs[i].listen),
                        path_and_query: Some(t.to_text()),
                    },
                };
            }
            i += 1;
        }
    }
    let ghost records = http_views(upstreams@);
    let mut k: usize = 0;
    while k < upstreams.len()
        invariant
            target_wf(&target),
            target_view(&target) == goal,
            k <= upstreams.len(),
            records == http_views(upstreams@),
            first_upstream_from(records, goal, 0) == first_upstream_from(records, goal, k as int),
        decreases upstreams.len() - k,
    {
        assert(records[k as int] == upstreams@[k as int]@);
        if upstreams[k].answers(&target) {
            return upstreams[k].forward(&target);
        }
        k += 1;
    }
    RoutingOutcome::NoRoute
}

impl RouteConfig {
    /// Decides where a request for `host` with the target `path_and_query`
    /// goes.  The decision rests on this table alone: on the directory records
    /// and the HTTP records that it holds for `host`.
    pub fn resolve(&self, host: &str, path_and_query: Option<&str>) -> (outcome: RoutingOutcome)
        ensures
            outcome@ == route(
                self.dir.mounts_of(host@),
                self.http.upstreams_of(host@),
                text_view(path_and_query),
            ),
    {
        let key = host.to_owned();
        let none_dir: Vec<DirParsedRecord> = Vec::new();
        let none_http: Vec<HttpParsedRecord> = Vec::new();
        let dirs = match self.dir.domain.get(&key) {
            Some(records) => records,
            None => &none_dir,
        };
        let upstreams = match self.http.get(&key) {
            Some(records) => records,
            None => &none_http,
        };
        decide(dirs, upstreams, path_and_query)
    }
}

/// A host without records of either kind has no route, whatever is asked of it.
pub proof fn lemma_unknown_host_has_no_route(
    dirs: Seq<DirParsedRecordView>,
    upstreams: Seq<HttpParsedRecordView>,
    target: Option<Seq<char>>,
)
    requires
        dirs.len() == 0,
        upstreams.len() == 0,
    ensures
        route(dirs, upstreams, target) == RoutingOutcomeView::NoRoute,
{
}

/// A directory record that answers beats every HTTP record: where the host has
/// a directory record whose route is a prefix of the path, the request goes to the
/// first such record, as it is and over plain HTTP.
pub proof fn lemma_directory_first(
    dirs: Seq<DirParsedRecordView>,
    upstreams: Seq<HttpParsedRecordView>,
    target: Seq<char>,
    i: int,
)
    requires
        0 <= i < dirs.len(),
        dirs[i].route.is_prefix_of(path_of(target)),
        forall|j: int| 0 <= j < i ==> !(#[trigger] dirs[j]).route.is_prefix_of(path_of(target)),
    ensures
        route(dirs, upstreams, Some(target)) == (RoutingOutcomeView::ForwardToDirectory {
            target_address: dirs[i].listen,
            rewritten_uri: RewrittenUriView {
                https: false,
                authority: AuthorityView::Address(dirs[i].listen),
                path_and_query: Some(target),
            },
        }),
{
    lemma_first_mount(dirs, path_of(target), 0);
}

/// Among HTTP records the first one that answers is taken: on a host without
/// directory records, the outcome is that of the first record that answers
/// for the request.
pub proof fn lemma_first_upstream_wins(
    upstreams: Seq<HttpParsedRecordView>,
    target: Option<Seq<char>>,
    i: int,
)
    requires
        0 <= i < upstreams.len(),
        answers_for(upstreams[i], target),
        forall|j: int| 0 <= j < i ==> !answers_for(#[trigger] upstreams[j], target),
    ensures
        route(Seq::empty(), upstreams, target) == forward(upstreams[i], target),
{
    lemma_first_upstream(upstreams, target, 0);
}

/// What `first_upstream_from` finds is the first record, from `k` on, that
/// answers for `target`; it finds none only where there is none.
pub proof fn lemma_first_upstream(
    records: Seq<HttpParsedRecordView>,
    target: Option<Seq<char>>,
    k: int,
)
    requires
        0 <= k,
    ensures
        match first_upstream_from(records, target, k) {
            Some(i) => k <= i < records.len() && answers_for(records[i], target) && forall|j: int|
                k <= j < i ==> !answers_for(#[trigger] records[j], target),
            None => forall|j: int| k <= j < records.len() ==> !answers_for(#[trigger] records[j], target),
        },
    decreases records.len() - k,
{
    if k < records.len() && !answers_for(records[k], target) {
        lemma_first_upstream(records, target, k + 1);
    }
}

/// Where a record strips its route, the route that matched and the target
/// that is forwarded make up the target of the request.
pub proof fn lemma_stripped_route_restores(record: HttpParsedRecordView, target: Seq<char>)
    requires
        record.strip_route,
        first_route_from(record.routes, path_of(target), 0) is Some,
    ensures
        forwarded_target(record, Some(target)) matches Some(rest) && record.routes[first_route_from(
            record.routes,
            path_of(target),
            0,
        )->0] + rest == target,
{
    lemma_first_route(record.routes, path_of(target), 0);
    lemma_first_index(target, '?');
    let route = record.routes[first_route_from(record.routes, path_of(target), 0)->0];
    assert(route =~= target.subrange(0, route.len() as int));
    assert(route + target.skip(route.len() as int) =~= target);
}

/// A port that is dialled on the word of a request is on the allow-list of
/// the record, and only the port of the record's address gives way to it.
pub proof fn lemma_dialled_port_is_allowed(record: HttpParsedRecordView, target: Option<Seq<char>>)
    requires
        record.proxy_ports_from_prefix is Some,
    ensures
        forward(record, target) matches RoutingOutcomeView::ForwardToUpstream { target_address, .. }
            ==> record.proxy_ports_from_prefix->0.contains(target_address.port) && target_address
            == record.addr.spec_with_port(target_address.port),
{
}

/// A forwarded target is never empty where a port was taken out of it: it
/// begins with `/`.
pub proof fn lemma_port_target_keeps_slash(record: HttpParsedRecordView, target: Option<Seq<char>>)
    requires
        record.proxy_ports_from_prefix is Some,
    ensures
        forward(record, target) matches RoutingOutcomeView::ForwardToUpstream { rewritten_uri, .. }
            ==> rewritten_uri.path_and_query matches Some(text) && text.len() > 0 && text[0] == '/',
{
}

} // verus!
