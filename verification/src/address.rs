//! Network addresses as plain values.

use vstd::prelude::*;

verus! {

/// An IP address, held as the integer that its bytes spell in network order.
#[derive(Clone, Copy, Debug, PartialEq, Eq, Structural)]
pub enum IpAddress {
    V4(u32),
    V6(u128),
}

/// Where a connection is dialled or a listener bound: an IP address and a port.
///
/// For IPv6 the flow label and the scope identifier are carried along so that
/// an address handed in comes out again unchanged.
#[derive(Clone, Copy, Debug, PartialEq, Eq, Structural)]
pub struct SocketAddress {
    pub ip: IpAddress,
    pub port: u16,
    pub flowinfo: u32,
    pub scope_id: u32,
}

impl View for SocketAddress {
    type V = SocketAddress;

    open spec fn view(&self) -> SocketAddress {
        *self
    }
}

impl SocketAddress {
    /// The address `ip` on `port`, with no flow label and no scope.
    pub fn new(ip: IpAddress, port: u16) -> (addr: SocketAddress)
        ensures
            addr == (SocketAddress { ip, port, flowinfo: 0, scope_id: 0 }),
    {
        SocketAddress { ip, port, flowinfo: 0, scope_id: 0 }
    }

    /// The same host on another port.
    pub open spec fn spec_with_port(self, port: u16) -> SocketAddress {
        SocketAddress { port, ..self }
    }

    /// The same host on another port.
    pub fn with_port(&self, port: u16) -> (addr: SocketAddress)
        ensures
            addr == self.spec_with_port(port),
    {
        SocketAddress { ip: self.ip, port, flowinfo: self.flowinfo, scope_id: self.scope_id }
    }
}

/// The authority that a forwarded request names: either a text taken from the
/// configuration as it was written, or a socket address, which the caller
/// writes out when it builds the outbound request.
#[derive(Debug, PartialEq, Eq)]
pub enum Authority {
    Named(String),
    Address(SocketAddress),
}

/// What an [`Authority`] holds, as a value of specifications.
pub enum AuthorityView {
    Named(Seq<char>),
    Address(SocketAddress),
}

impl View for Authority {
    type V = AuthorityView;

    open spec fn view(&self) -> AuthorityView {
        match self {
            Authority::Named(text) => AuthorityView::Named(text@),
            Authority::Address(addr) => AuthorityView::Address(*addr),
        }
    }
}

impl Clone for Authority {
    fn clone(&self) -> (copy: Authority)
        ensures
            copy@ == self@,
    {
        match self {
            Authority::Named(text) => Authority::Named(text.clone()),
            Authority::Address(addr) => Authority::Address(*addr),
        }
    }
}

} // verus!
