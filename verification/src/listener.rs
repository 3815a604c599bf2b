//! Where the router listens.
use crate::args::{Args, ServiceMode};
use crate::ip::{IpAddr, SocketAddr};
use crate::text;
use vstd::prelude::*;

verus! {

/// How many connections may wait to be accepted.
pub const LISTEN_BACKLOG: i32 = 1024;

/// Why the router cannot listen.
#[derive(Debug, Clone, Copy, PartialEq, Eq, Structural)]
pub enum ListenError {
    /// The name could not be resolved.
    Resolve,
    /// The name resolved to nothing.
    Unresolved,
    /// IPv6 alone was asked for, on an IPv4 address.
    NotIpv6,
}

impl ListenError {
    /// What the error says of the address `host:port`.
    pub open spec fn spec_text(self, host: Seq<char>, port: nat) -> Seq<char> {
        match self {
            ListenError::Resolve => "failed to resolve bind address "@ + host + ":"@
                + text::decimal(port),
            ListenError::Unresolved => "bind address "@ + host + ":"@ + text::decimal(port)
                + " did not resolve"@,
            ListenError::NotIpv6 => "--ipv6-only requires an IPv6 bind address"@,
        }
    }

    /// What the error says of the address `host:port`.
    pub fn text(&self, host: &str, port: u16) -> (r: String)
        ensures
            r@ == self.spec_text(host@, port as nat),
    {
        let port = text::decimal_string(port as u64);
        match self {
            ListenError::Resolve => "failed to resolve bind address ".to_owned().concat(
                host,
            ).concat(":").concat(port.as_str()),
            ListenError::Unresolved => "bind address ".to_owned().concat(host).concat(":").concat(
                port.as_str(),
            ).concat(" did not resolve"),
            ListenError::NotIpv6 => "--ipv6-only requires an IPv6 bind address".to_owned(),
        }
    }
}

/// The address to listen on: the first that the name resolved to; nothing where it could not be
/// resolved.
pub fn resolve_bind_addr(resolved: Option<&[SocketAddr]>) -> (r: Result<SocketAddr, ListenError>)
    ensures
        r == (match resolved {
            None => Err::<SocketAddr, ListenError>(ListenError::Resolve),
            Some(addrs) => if addrs@.len() == 0 {
                Err(ListenError::Unresolved)
            } else {
                Ok(addrs@[0])
            },
        }),
{
    match resolved {
        None => Err(ListenError::Resolve),
        Some(addrs) => if addrs.len() == 0 {
            Err(ListenError::Unresolved)
        } else {
            Ok(addrs[0])
        },
    }
}

/// How a listener is made.
#[derive(Debug, Clone, Copy, PartialEq, Eq, Structural)]
pub enum Listening {
    /// A plain IPv4 listener.
    V4,
    /// An IPv6 listener, which takes IPv4 connections too unless `only_v6` is set.
    V6 { only_v6: bool },
}

/// How a listener on `bind_addr` is made.
pub fn bind_listener(bind_addr: SocketAddr, ipv6_only: bool) -> (r: Result<Listening, ListenError>)
    ensures
        r == (match bind_addr.ip {
            IpAddr::V4(_) => if ipv6_only {
                Err::<Listening, ListenError>(ListenError::NotIpv6)
            } else {
                Ok(Listening::V4)
            },
            IpAddr::V6(_) => Ok(Listening::V6 { only_v6: ipv6_only }),
        }),
{
    match bind_addr.ip {
        IpAddr::V4(_) => if ipv6_only {
            Err(ListenError::NotIpv6)
        } else {
            Ok(Listening::V4)
        },
        IpAddr::V6(_) => Ok(Listening::V6 { only_v6: ipv6_only }),
    }
}

/// A service that runs: its port, and whether it serves TLS.
#[derive(Debug, Clone, Copy, PartialEq, Eq, Structural)]
pub struct Service {
    pub port: u16,
    pub tls: bool,
}

/// The services that the options ask for.
pub open spec fn services_of(mode: ServiceMode, port: u16, tls_port: u16) -> Seq<Service> {
    let ws = Service { port, tls: false };
    let wss = Service { port: tls_port, tls: true };
    match mode {
        ServiceMode::WsOnly => seq![ws],
        ServiceMode::WssOnly => seq![wss],
        ServiceMode::Both => seq![ws, wss],
    }
}

/// The services that the options ask for.
pub fn services(args: &Args) -> (r: Vec<Service>)
    ensures
        r@ == services_of(args.service_mode, args.port, args.tls_port),
{
    let mut out: Vec<Service> = Vec::new();
    if args.service_mode.includes_ws() {
        out.push(Service { port: args.port, tls: false });
    }
    if args.service_mode.includes_wss() {
        out.push(Service { port: args.tls_port, tls: true });
    }
    assert(out@ =~= services_of(args.service_mode, args.port, args.tls_port));
    out
}

/// Accepted options give each service its own port, and those with TLS a certificate.
pub proof fn law_services_do_not_collide(args: Args, i: int, j: int)
    requires
        args.fault() is None,
        0 <= i < services_of(args.service_mode, args.port, args.tls_port).len(),
        0 <= j < services_of(args.service_mode, args.port, args.tls_port).len(),
    ensures
        services_of(args.service_mode, args.port, args.tls_port)[i].tls ==> args.has_tls(),
        i != j ==> services_of(args.service_mode, args.port, args.tls_port)[i].port != services_of(
            args.service_mode,
            args.port,
            args.tls_port,
        )[j].port,
{
}

} // verus!
