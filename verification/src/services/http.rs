//! What the proxy makes of a routing decision.

use crate::address::SocketAddress;
use crate::shared::SharedRoutingState;
use crate::engine::{
    route, text_view, RewrittenUri, RewrittenUriView, RoutingOutcome, RoutingOutcomeView,
};
use crate::text::chars_of;
use vstd::prelude::*;
use vstd::string::StringExecFns;

verus! {

/// Where a failure is attributed to.
#[derive(Clone, Copy, Debug, PartialEq, Eq, Structural)]
pub enum ErrorSource {
    Upstream,
    Downstream,
    Internal,
}

/// A failure that is answered with an HTTP status.
#[derive(Clone, Copy, Debug, PartialEq, Eq, Structural)]
pub struct GatewayError {
    pub status: u16,
    pub source: ErrorSource,
    pub retry: bool,
}

/// The upstream that a request is proxied to.
#[derive(Clone, Debug, PartialEq, Eq)]
pub struct Peer {
    /// The address that is dialled.
    pub address: SocketAddress,
    /// Whether the connection to the upstream uses TLS.
    pub tls: bool,
    /// The server name that is presented to the upstream.
    pub sni: String,
    /// The target that the outbound request is rewritten to.
    pub uri: RewrittenUri,
}

/// What a [`Peer`] holds.
pub struct PeerView {
    pub address: SocketAddress,
    pub tls: bool,
    pub sni: Seq<char>,
    pub uri: RewrittenUriView,
}

impl View for Peer {
    type V = PeerView;

    open spec fn view(&self) -> PeerView {
        PeerView { address: self.address, tls: self.tls, sni: self.sni@, uri: self.uri@ }
    }
}

/// What stays with one request from its arrival to its log line.
#[derive(Clone, Debug, PartialEq, Eq)]
pub struct Context {
    /// The identifier under which everything about the request is logged.
    pub request_id: String,
}

/// The gateway: the shared routing table and what is made of its decisions.
pub struct HttpGateway {
    pub config: SharedRoutingState,
}

/// Whether `c` is a digit of lower-case hexadecimal.
pub open spec fn is_lower_hex(c: char) -> bool {
    ('0' <= c && c <= '9') || ('a' <= c && c <= 'f')
}

/// Whether `id` has the form of a request identifier: 32 digits of lower-case
/// hexadecimal.
pub open spec fn is_request_id(id: Seq<char>) -> bool {
    &&& id.len() == 32
    &&& forall|i: int| 0 <= i < id.len() ==> is_lower_hex(#[trigger] id[i])
}

/// Draws a random UUID with `uuid::Uuid::new_v4` and writes it in the crate's
/// simple form: the 128 bits as 32 digits of lower-case hexadecimal, without
/// hyphens.  Which digits come out is left open.
#[verifier::external_body]
fn random_simple_uuid() -> (id: String)
    ensures
        is_request_id(id@),
{
    ::uuid::Uuid::new_v4().simple().to_string()
}

/// The peer that the outcome `outcome` of a request for `host` selects, or
/// the failure that answers the request where nothing was selected.
pub open spec fn peer_of(outcome: RoutingOutcomeView, host: Seq<char>) -> Result<
    PeerView,
    GatewayError,
> {
    match outcome {
        RoutingOutcomeView::ForwardToDirectory { target_address, rewritten_uri } => Ok(
            PeerView { address: target_address, tls: false, sni: host, uri: rewritten_uri },
        ),
        RoutingOutcomeView::ForwardToUpstream { target_address, https, rewritten_uri } => Ok(
            PeerView { address: target_address, tls: https, sni: host, uri: rewritten_uri },
        ),
        RoutingOutcomeView::NoRoute => Err(no_route_error()),
    }
}

/// The failure that answers a request without a route: status 404, laid at
/// the upstream's door, never retried.
pub open spec fn no_route_error() -> GatewayError {
    GatewayError { status: 404, source: ErrorSource::Upstream, retry: false }
}

/// The views of the two sides of a result.
pub open spec fn peer_view(result: Result<Peer, GatewayError>) -> Result<PeerView, GatewayError> {
    match result {
        Ok(peer) => Ok(peer@),
        Err(error) => Err(error),
    }
}

/// The host that a request is for; the empty text where it names none.
pub open spec fn host_or_empty(host: Option<&str>) -> Seq<char> {
    match host {
        Some(name) => name@,
        None => Seq::empty(),
    }
}

/// The status that is logged for a request: that of the response, `0` where
/// none was written.
pub open spec fn logged_status(status: Option<u16>) -> u16 {
    match status {
        Some(code) => code,
        None => 0,
    }
}

/// The character `c`, with a capital letter of ASCII turned into its small one.
pub open spec fn folded(c: char) -> char {
    if 'A' <= c && c <= 'Z' {
        ((c as u8 + 32) as u8) as char
    } else {
        c
    }
}

/// Whether `a` and `b` are the same header name: they are where they differ
/// in nothing but the case of ASCII letters.
pub open spec fn same_name(a: Seq<char>, b: Seq<char>) -> bool {
    &&& a.len() == b.len()
    &&& forall|i: int| 0 <= i < a.len() ==> folded(#[trigger] a[i]) == folded(b[i])
}

/// Whether a header of the name `name` says where a request came from.
pub open spec fn names_client(name: Seq<char>) -> bool {
    same_name(name, "x-forwarded-for"@) || same_name(name, "x-real-ip"@)
}

/// The names and values of the headers `headers`, in order.
pub open spec fn header_views(headers: Seq<(String, String)>) -> Seq<(Seq<char>, Seq<char>)> {
    headers.map_values(|h: (String, String)| (h.0@, h.1@))
}

/// The headers of the outbound request for a client at `client`: those of
/// `headers` that do not say where the request came from, and behind them the
/// two that do, with the address that the gateway itself saw.
pub open spec fn forwarded_headers(headers: Seq<(Seq<char>, Seq<char>)>, client: Seq<char>) -> Seq<
    (Seq<char>, Seq<char>),
> {
    headers.filter(|h: (Seq<char>, Seq<char>)| !names_client(h.0)).push(
        ("X-Forwarded-For"@, client),
    ).push(("X-Real-Ip"@, client))
}

/// Whether `a` and `b` are the same header name.
pub fn is_same_name(a: &Vec<char>, b: &Vec<char>) -> (same: bool)
    ensures
        same == same_name(a@, b@),
{
    if a.len() != b.len() {
        return false;
    }
    let mut i: usize = 0;
    while i < a.len()
        invariant
            i <= a.len(),
            a.len() == b.len(),
            forall|j: int| 0 <= j < i ==> folded(#[trigger] a@[j]) == folded(b@[j]),
        decreases a.len() - i,
    {
        let x = a[i];
        let y = b[i];
        let fx: char = if 'A' <= x && x <= 'Z' {
            (x as u8 + 32) as char
        } else {
            x
        };
        let fy: char = if 'A' <= y && y <= 'Z' {
            (y as u8 + 32) as char
        } else {
            y
        };
        if fx != fy {
            assert(folded(a@[i as int]) != folded(b@[i as int]));
            return false;
        }
        i += 1;
    }
    true
}

/// Whether a header of the name `name` says where a request came from.
pub fn is_client_header(name: &str) -> (b: bool)
    ensures
        b == names_client(name@),
{
    let given = chars_of(name);
    let forwarded_for = chars_of("x-forwarded-for");
    let real_ip = chars_of("x-real-ip");
    is_same_name(&given, &forwarded_for) || is_same_name(&given, &real_ip)
}

/// No header of the outbound request says that the request came from
/// anywhere but `client`.
pub proof fn lemma_client_headers_overwritten(
    headers: Seq<(Seq<char>, Seq<char>)>,
    client: Seq<char>,
    i: int,
)
    requires
        0 <= i < forwarded_headers(headers, client).len(),
        names_client(forwarded_headers(headers, client)[i].0),
    ensures
        forwarded_headers(headers, client)[i].1 == client,
{
    let keep = |h: (Seq<char>, Seq<char>)| !names_client(h.0);
    let kept = headers.filter(keep);
    if i < kept.len() {
        headers.lemma_filter_pred(keep, i);
    }
}

impl HttpGateway {
    /// The headers of the outbound request: `headers` with the address of the
    /// client written over whatever the client itself said of it.
    pub fn upstream_request_filter(headers: Vec<(String, String)>, client: &str) -> (out: Vec<
        (String, String),
    >)
        ensures
            header_views(out@) == forwarded_headers(header_views(headers@), client@),
    {
        let ghost all = header_views(headers@);
        let ghost keep = |h: (Seq<char>, Seq<char>)| !names_client(h.0);
        let mut out: Vec<(String, String)> = Vec::new();
        let mut i: usize = 0;
        assert(all.take(0).filter(keep) =~= Seq::<(Seq<char>, Seq<char>)>::empty()) by {
            reveal(Seq::filter);
        }
        assert(header_views(out@) =~= Seq::<(Seq<char>, Seq<char>)>::empty());
        while i < headers.len()
            invariant
                i <= headers.len(),
                all == header_views(headers@),
                keep == (|h: (Seq<char>, Seq<char>)| !names_client(h.0)),
                header_views(out@) == all.take(i as int).filter(keep),
            decreases headers.len() - i,
        {
            let ghost before = header_views(out@);
            let ghost here = (headers@[i as int].0@, headers@[i as int].1@);
            assert(all.take(i + 1).drop_last() =~= all.take(i as int));
            assert(all.take(i + 1).last() == here);
            assert(all.take(i + 1).filter(keep) == if keep(here) {
                before.push(here)
            } else {
                before
            }) by {
                reveal(Seq::filter);
            }
            if !is_client_header(headers[i].0.as_str()) {
                out.push((headers[i].0.clone(), headers[i].1.clone()));
                assert(header_views(out@) =~= before.push(here));
            }
            i += 1;
        }
        assert(all.take(headers.len() as int) =~= all);
        let ghost kept = header_views(out@);
        out.push((String::from_str("X-Forwarded-For"), client.to_owned()));
        out.push((String::from_str("X-Real-Ip"), client.to_owned()));
        assert(header_views(out@) =~= kept.push(("X-Forwarded-For"@, client@)).push(
            ("X-Real-Ip"@, client@),
        ));
        out
    }

    /// The failure that answers a request without a route.
    pub fn default_err() -> (error: GatewayError)
        ensures
            error == no_route_error(),
    {
        GatewayError { status: 404, source: ErrorSource::Upstream, retry: false }
    }

    /// The context of a new request, with a fresh identifier.
    pub fn new_ctx(&self) -> (ctx: Context)
        ensures
            is_request_id(ctx.request_id@),
    {
        Context { request_id: random_simple_uuid() }
    }

    /// Turns the outcome of the routing decision for `host` into the peer to
    /// dial, or into the failure that answers the request.
    pub fn select_peer(outcome: RoutingOutcome, host: &str) -> (result: Result<Peer, GatewayError>)
        ensures
            peer_view(result) == peer_of(outcome@, host@),
    {
        match outcome {
            RoutingOutcome::ForwardToDirectory { target_address, rewritten_uri } => Ok(
                Peer {
                    address: target_address,
                    tls: false,
                    sni: host.to_owned(),
                    uri: rewritten_uri,
                },
            ),
            RoutingOutcome::ForwardToUpstream { target_address, https, rewritten_uri } => Ok(
                Peer { address: target_address, tls: https, sni: host.to_owned(), uri: rewritten_uri },
            ),
            RoutingOutcome::NoRoute => Err(Self::default_err()),
        }
    }

    /// Selects the peer for a request from its `host` header and its target,
    /// on the table that is in place.  A request without a host header is
    /// routed as one for the empty host.
    pub fn upstream_peer(&self, host: Option<&str>, path_and_query: Option<&str>) -> (result: Result<
        Peer,
        GatewayError,
    >)
        ensures
            peer_view(result) == peer_of(
                route(
                    self.config@.dir.mounts_of(host_or_empty(host)),
                    self.config@.http.upstreams_of(host_or_empty(host)),
                    text_view(path_and_query),
                ),
                host_or_empty(host),
            ),
    {
        let empty = String::new();
        let name: &str = match host {
            Some(name) => name,
            None => empty.as_str(),
        };
        let outcome = self.config.resolve(name, path_and_query);
        Self::select_peer(outcome, name)
    }

    /// Whether a request is answered without being proxied: none is.
    pub fn request_filter(&self) -> (handled: bool)
        ensures
            !handled,
    {
        false
    }

    /// The status that is logged for a request.
    pub fn logging(&self, status: Option<u16>) -> (code: u16)
        ensures
            code == logged_status(status),
    {
        match status {
            Some(code) => code,
            None => 0,
        }
    }
}

} // verus!
