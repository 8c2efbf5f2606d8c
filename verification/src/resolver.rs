//! From an upstream descriptor to the address that is dialled.
//!
//! Looking a name up needs the network, so the work is cut in two around it:
//! [`plan_upstream`] reads the descriptor and says whether a lookup is needed
//! and for which name; [`UpstreamPlan::conclude`] takes what the lookup found
//! and gives the address, or the reason why the record is dropped.

use crate::address::{Authority, AuthorityView, IpAddress, SocketAddress};
use crate::text::{chars_of, find_last, last_index, parse_port_range, port_of};
use vstd::prelude::*;

verus! {

/// Why a record of the configuration does not enter the routing table.
#[derive(Clone, Copy, Debug, PartialEq, Eq, Structural)]
pub enum RecordError {
    /// The upstream descriptor is no authority, or no address literal and not
    /// of the form `host:port` with a 16-bit port.
    InvalidUpstream,
    /// The descriptor names a host and there is no resolver to look it up.
    NoResolver,
    /// The lookup of the host name failed.
    ResolutionFailed,
    /// The lookup succeeded and returned no address.
    NoAddresses,
    /// The listener of a directory mount is no socket address literal.
    InvalidListen,
    /// The key of a TCP group is no 16-bit port.
    InvalidPort,
    /// The listener already has a mount at `/`.
    DuplicateRoot,
}

/// An upstream whose address is known.
#[derive(Debug, PartialEq, Eq)]
pub struct ResolvedUpstream {
    pub authority: Authority,
    pub addr: SocketAddress,
}

/// What a [`ResolvedUpstream`] holds.
pub struct ResolvedUpstreamView {
    pub authority: AuthorityView,
    pub addr: SocketAddress,
}

impl View for ResolvedUpstream {
    type V = ResolvedUpstreamView;

    open spec fn view(&self) -> ResolvedUpstreamView {
        ResolvedUpstreamView { authority: self.authority@, addr: self.addr }
    }
}

impl Clone for ResolvedUpstream {
    fn clone(&self) -> (copy: ResolvedUpstream)
        ensures
            copy@ == self@,
    {
        ResolvedUpstream { authority: self.authority.clone(), addr: self.addr }
    }
}

/// What reading an upstream descriptor leads to.
#[derive(Debug, PartialEq, Eq)]
pub enum UpstreamPlan {
    /// The descriptor is an address literal: nothing is left to do.
    Direct(ResolvedUpstream),
    /// The descriptor is `hostname:port`, and the name has to be looked up.
    Lookup { hostname: String, port: u16 },
    /// The record is dropped.
    Rejected(RecordError),
}

/// What an [`UpstreamPlan`] holds.
pub enum UpstreamPlanView {
    Direct(ResolvedUpstreamView),
    Lookup { hostname: Seq<char>, port: u16 },
    Rejected(RecordError),
}

impl View for UpstreamPlan {
    type V = UpstreamPlanView;

    open spec fn view(&self) -> UpstreamPlanView {
        match self {
            UpstreamPlan::Direct(resolved) => UpstreamPlanView::Direct(resolved@),
            UpstreamPlan::Lookup { hostname, port } => UpstreamPlanView::Lookup {
                hostname: hostname@,
                port: *port,
            },
            UpstreamPlan::Rejected(error) => UpstreamPlanView::Rejected(*error),
        }
    }
}

/// What a name lookup came back with.
#[derive(Clone, Debug, PartialEq, Eq)]
pub enum LookupOutcome {
    /// The lookup failed: a timeout, an unknown name, a refused query.
    Failed,
    /// The addresses found, in the order in which they were returned.
    Addresses(Vec<IpAddress>),
}

/// Whether `text`, taken alone, is accepted as the authority of a URI.
pub uninterp spec fn authority_accepts(text: Seq<char>) -> bool;

/// Asks `http::uri::Authority`'s parser whether it accepts `text`.  The answer
/// depends on the characters of `text` alone; it is named, not spelled out.
#[verifier::external_body]
fn authority_parses(text: &str) -> (accepted: bool)
    ensures
        accepted == authority_accepts(text@),
{
    text.parse::<::http::uri::Authority>().is_ok()
}

/// The plan for `upstream`, given whether it is accepted as an authority,
/// what it denotes if it is a socket address literal, and whether names can be
/// looked up.
///
/// A literal is used as it stands.  Anything else is cut at its last `:` into
/// a host name and a port, and is turned down where it cannot be cut so; only
/// then does it matter whether there is a resolver.
pub open spec fn plan_of(
    accepted: bool,
    upstream: Seq<char>,
    literal: Option<SocketAddress>,
    has_resolver: bool,
) -> UpstreamPlanView {
    let colon = last_index(upstream, ':');
    if !accepted {
        UpstreamPlanView::Rejected(RecordError::InvalidUpstream)
    } else if let Some(addr) = literal {
        UpstreamPlanView::Direct(
            ResolvedUpstreamView { authority: AuthorityView::Named(upstream), addr },
        )
    } else if colon < 0 {
        UpstreamPlanView::Rejected(RecordError::InvalidUpstream)
    } else if let Some(port) = port_of(upstream.skip(colon + 1)) {
        if has_resolver {
            UpstreamPlanView::Lookup { hostname: upstream.take(colon), port }
        } else {
            UpstreamPlanView::Rejected(RecordError::NoResolver)
        }
    } else {
        UpstreamPlanView::Rejected(RecordError::InvalidUpstream)
    }
}

/// Plans the resolution of `upstream` once it is known whether the text is
/// accepted as an authority.
pub fn plan_checked_upstream(
    accepted: bool,
    upstream: &str,
    literal: Option<SocketAddress>,
    has_resolver: bool,
) -> (plan: UpstreamPlan)
    ensures
        plan@ == plan_of(accepted, upstream@, literal, has_resolver),
{
    if !accepted {
        return UpstreamPlan::Rejected(RecordError::InvalidUpstream);
    }
    if let Some(addr) = literal {
        return UpstreamPlan::Direct(
            ResolvedUpstream { authority: Authority::Named(upstream.to_owned()), addr },
        );
    }
    let chars = chars_of(upstream);
    let colon: usize = match find_last(&chars, ':') {
        Some(k) => k,
        None => {
            return UpstreamPlan::Rejected(RecordError::InvalidUpstream);
        },
    };
    assert(chars@.subrange(colon + 1, chars@.len() as int) =~= upstream@.skip(colon + 1));
    match parse_port_range(&chars, colon + 1, chars.len()) {
        Some(port) => {
            if !has_resolver {
                return UpstreamPlan::Rejected(RecordError::NoResolver);
            }
            let hostname = upstream.substring_char(0, colon).to_owned();
            assert(hostname@ =~= upstream@.take(colon as int));
            UpstreamPlan::Lookup { hostname, port }
        },
        None => UpstreamPlan::Rejected(RecordError::InvalidUpstream),
    }
}

/// Plans the resolution of the upstream descriptor `upstream`.
///
/// `literal` is the address that `upstream` denotes when it is a socket
/// address literal, `None` when it is none; `has_resolver` says whether host
/// names can be looked up at all.
pub fn plan_upstream(upstream: &str, literal: Option<SocketAddress>, has_resolver: bool) -> (plan:
    UpstreamPlan)
    ensures
        plan@ == plan_of(authority_accepts(upstream@), upstream@, literal, has_resolver),
{
    let accepted = authority_parses(upstream);
    plan_checked_upstream(accepted, upstream, literal, has_resolver)
}

/// The upstream that a lookup for a name on `port` leads to: the first address
/// returned, on that port, which is its own authority.
pub open spec fn lookup_result(port: u16, outcome: LookupOutcome) -> Result<
    ResolvedUpstreamView,
    RecordError,
> {
    match outcome {
        LookupOutcome::Failed => Err(RecordError::ResolutionFailed),
        LookupOutcome::Addresses(found) => if found@.len() == 0 {
            Err(RecordError::NoAddresses)
        } else {
            let addr = SocketAddress { ip: found@[0], port, flowinfo: 0, scope_id: 0 };
            Ok(ResolvedUpstreamView { authority: AuthorityView::Address(addr), addr })
        },
    }
}

/// What a plan comes to, given the outcome of the lookup it asked for.  A plan
/// that asked for a lookup and got none counts as a failed lookup.
pub open spec fn conclusion(plan: UpstreamPlanView, lookup: Option<LookupOutcome>) -> Result<
    ResolvedUpstreamView,
    RecordError,
> {
    match plan {
        UpstreamPlanView::Direct(resolved) => Ok(resolved),
        UpstreamPlanView::Rejected(error) => Err(error),
        UpstreamPlanView::Lookup { hostname, port } => match lookup {
            Some(outcome) => lookup_result(port, outcome),
            None => Err(RecordError::ResolutionFailed),
        },
    }
}

/// The views of the two sides of a result.
pub open spec fn resolved_view(result: Result<ResolvedUpstream, RecordError>) -> Result<
    ResolvedUpstreamView,
    RecordError,
> {
    match result {
        Ok(resolved) => Ok(resolved@),
        Err(error) => Err(error),
    }
}

/// Turns the outcome of a lookup for a name on `port` into an upstream.
pub fn finish_lookup(port: u16, outcome: LookupOutcome) -> (result: Result<
    ResolvedUpstream,
    RecordError,
>)
    ensures
        resolved_view(result) == lookup_result(port, outcome),
{
    match outcome {
        LookupOutcome::Failed => Err(RecordError::ResolutionFailed),
        LookupOutcome::Addresses(found) => {
            if found.len() == 0 {
                Err(RecordError::NoAddresses)
            } else {
                let addr = SocketAddress::new(found[0], port);
                Ok(ResolvedUpstream { authority: Authority::Address(addr), addr })
            }
        },
    }
}

impl UpstreamPlan {
    /// The host name that has to be looked up before the plan can be
    /// concluded, if there is one.
    pub fn pending_lookup(&self) -> (hostname: Option<&str>)
        ensures
            match hostname {
                Some(name) => self@ matches UpstreamPlanView::Lookup { hostname, .. }
                    && name@ == hostname,
                None => !(self@ is Lookup),
            },
    {
        match self {
            UpstreamPlan::Lookup { hostname, .. } => Some(hostname.as_str()),
            _ => None,
        }
    }

    /// Concludes the plan with what the lookup it asked for came back with.
    pub fn conclude(self, lookup: Option<LookupOutcome>) -> (result: Result<
        ResolvedUpstream,
        RecordError,
    >)
        ensures
            resolved_view(result) == conclusion(self@, lookup),
    {
        match self {
            UpstreamPlan::Direct(resolved) => Ok(resolved),
            UpstreamPlan::Rejected(error) => Err(error),
            UpstreamPlan::Lookup { hostname, port } => match lookup {
                Some(outcome) => finish_lookup(port, outcome),
                None => Err(RecordError::ResolutionFailed),
            },
        }
    }
}

} // verus!
