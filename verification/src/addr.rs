//! Network addresses of captured packets.

use vstd::prelude::*;

verus! {

/// An IP address, as the octets that travel on the wire.
#[derive(Debug, Clone, Copy, PartialEq, Eq, Hash)]
pub enum IpAddr {
    /// An IPv4 address.
    V4([u8; 4]),
    /// An IPv6 address.
    V6([u8; 16]),
}

/// One end of a captured packet: an IP address and a port.
///
/// An IPv6 end also carries the flow information and the scope of the
/// operating system's socket address. HEP3 has no chunk for either of them.
#[allow(inconsistent_fields)]
#[derive(Debug, Clone, Copy, PartialEq, Eq, Hash)]
pub enum SocketAddr {
    /// An IPv4 end.
    V4 {
        /// The four octets of the address, most significant first.
        octets: [u8; 4],
        /// The port.
        port: u16,
    },
    /// An IPv6 end.
    V6 {
        /// The sixteen octets of the address, most significant first.
        octets: [u8; 16],
        /// The port.
        port: u16,
        /// The flow information.
        flowinfo: u32,
        /// The scope.
        scope_id: u32,
    },
}

impl IpAddr {
    /// The octets of the address, most significant first.
    pub open spec fn octets(self) -> Seq<u8> {
        match self {
            IpAddr::V4(octets) => octets@,
            IpAddr::V6(octets) => octets@,
        }
    }
}

impl SocketAddr {
    /// The IP address of a socket address.
    pub open spec fn spec_ip(&self) -> IpAddr {
        match *self {
            SocketAddr::V4 { octets, port } => IpAddr::V4(octets),
            SocketAddr::V6 { octets, port, flowinfo, scope_id } => IpAddr::V6(octets),
        }
    }

    /// The port of a socket address.
    pub open spec fn spec_port(&self) -> u16 {
        match *self {
            SocketAddr::V4 { octets, port } => port,
            SocketAddr::V6 { octets, port, flowinfo, scope_id } => port,
        }
    }

    /// The socket address with the given IP address and port, and with
    /// neither flow information nor scope.
    pub open spec fn spec_new(ip: IpAddr, port: u16) -> SocketAddr {
        match ip {
            IpAddr::V4(octets) => SocketAddr::V4 { octets, port },
            IpAddr::V6(octets) => SocketAddr::V6 { octets, port, flowinfo: 0, scope_id: 0 },
        }
    }

    /// Put an IP address and a port together. Flow information and scope of an
    /// IPv6 end are zero.
    #[verifier::when_used_as_spec(spec_new)]
    pub fn new(ip: IpAddr, port: u16) -> (addr: SocketAddr)
        ensures
            addr == SocketAddr::spec_new(ip, port),
    {
        match ip {
            IpAddr::V4(octets) => SocketAddr::V4 { octets, port },
            IpAddr::V6(octets) => SocketAddr::V6 { octets, port, flowinfo: 0, scope_id: 0 },
        }
    }

    /// The IP address.
    #[verifier::when_used_as_spec(spec_ip)]
    pub fn ip(&self) -> (ip: IpAddr)
        ensures
            ip == self.spec_ip(),
    {
        match *self {
            SocketAddr::V4 { octets, port: _ } => IpAddr::V4(octets),
            SocketAddr::V6 { octets, port: _, flowinfo: _, scope_id: _ } => IpAddr::V6(octets),
        }
    }

    /// The port.
    #[verifier::when_used_as_spec(spec_port)]
    pub fn port(&self) -> (port: u16)
        ensures
            port == self.spec_port(),
    {
        match *self {
            SocketAddr::V4 { octets: _, port } => port,
            SocketAddr::V6 { octets: _, port, flowinfo: _, scope_id: _ } => port,
        }
    }
}

} // verus!
