use vstd::prelude::*;

verus! {

/// An IP address: IPv4 as its 32 bits, IPv6 as its 128 bits (big-endian, as
/// `u32::from(Ipv4Addr)` and `u128::from(Ipv6Addr)` give them).
#[derive(Clone, Copy, Debug, PartialEq, Eq, Hash, Structural)]
pub enum IpAddress {
    V4(u32),
    V6(u128),
}

/// A socket address, with the fields of `std::net::SocketAddr`.
#[derive(Clone, Copy, Debug, PartialEq, Eq, Hash, Structural)]
pub enum SocketAddress {
    V4 { ip: u32, port: u16 },
    V6 { ip: u128, port: u16, flowinfo: u32, scope_id: u32 },
}

impl SocketAddress {
    /// The IPv4 socket address `ip:port`.
    pub fn v4(ip: u32, port: u16) -> (a: SocketAddress)
        ensures
            a == (SocketAddress::V4 { ip, port }),
    {
        SocketAddress::V4 { ip, port }
    }

    /// The port.
    pub fn port(&self) -> (p: u16)
        ensures
            p == match *self {
                SocketAddress::V4 { port, .. } => port,
                SocketAddress::V6 { port, .. } => port,
            },
    {
        match *self {
            SocketAddress::V4 { port, .. } => port,
            SocketAddress::V6 { port, .. } => port,
        }
    }

    /// The IP address.
    pub fn ip(&self) -> (i: IpAddress)
        ensures
            i == match *self {
                SocketAddress::V4 { ip, .. } => IpAddress::V4(ip),
                SocketAddress::V6 { ip, .. } => IpAddress::V6(ip),
            },
    {
        match *self {
            SocketAddress::V4 { ip, .. } => IpAddress::V4(ip),
            SocketAddress::V6 { ip, .. } => IpAddress::V6(ip),
        }
    }

    /// The address `ip:port`, as `SocketAddr::new` builds it (an IPv6 address
    /// gets flow information and scope 0).
    pub fn new(ip: IpAddress, port: u16) -> (a: SocketAddress)
        ensures
            a == match ip {
                IpAddress::V4(v) => SocketAddress::V4 { ip: v, port },
                IpAddress::V6(v) => SocketAddress::V6 { ip: v, port, flowinfo: 0, scope_id: 0 },
            },
    {
        match ip {
            IpAddress::V4(v) => SocketAddress::V4 { ip: v, port },
            IpAddress::V6(v) => SocketAddress::V6 { ip: v, port, flowinfo: 0, scope_id: 0 },
        }
    }
}

} // verus!
