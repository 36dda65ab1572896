//! Plain-value models of IP addresses and socket addresses.
//!
//! The connection logic only ever inspects an address's family and carries the
//! address through to the I/O layer, so an address is held as its raw numeric
//! parts: four octets for IPv4, eight 16-bit segments for IPv6.

use vstd::prelude::*;

verus! {

/// An IP address as plain numeric parts.
#[derive(Clone, Copy, PartialEq, Eq, Structural, Debug)]
pub enum IpAddress {
    V4 { o0: u8, o1: u8, o2: u8, o3: u8 },
    V6 { s0: u16, s1: u16, s2: u16, s3: u16, s4: u16, s5: u16, s6: u16, s7: u16 },
}

impl IpAddress {
    /// Whether this address belongs to the IPv4 family.
    pub open spec fn spec_is_ipv4(self) -> bool {
        self is V4
    }

    /// Whether this address belongs to the IPv4 family.
    pub fn is_ipv4(&self) -> (r: bool)
        ensures
            r == self.spec_is_ipv4(),
    {
        match self {
            IpAddress::V4 { .. } => true,
            IpAddress::V6 { .. } => false,
        }
    }
}

/// One candidate address: an IP address together with a port.
#[derive(Clone, Copy, PartialEq, Eq, Structural, Debug)]
pub struct SocketAddress {
    pub ip: IpAddress,
    pub port: u16,
}

impl SocketAddress {
    /// Whether this candidate belongs to the IPv4 family.
    pub open spec fn spec_is_ipv4(self) -> bool {
        self.ip.spec_is_ipv4()
    }

    /// Whether this candidate belongs to the IPv4 family.
    pub fn is_ipv4(&self) -> (r: bool)
        ensures
            r == self.spec_is_ipv4(),
    {
        self.ip.is_ipv4()
    }
}

/// A candidate is eligible when no local bind address is configured, or when
/// its IP family matches the local bind address's family.
pub open spec fn eligible(a: SocketAddress, local: Option<IpAddress>) -> bool {
    match local {
        Option::None => true,
        Option::Some(l) => a.spec_is_ipv4() == l.spec_is_ipv4(),
    }
}

/// Executable family filter, equal to [`eligible`].
pub fn is_eligible(a: &SocketAddress, local: &Option<IpAddress>) -> (r: bool)
    ensures
        r == eligible(*a, *local),
{
    match local {
        Option::None => true,
        Option::Some(l) => a.is_ipv4() == l.is_ipv4(),
    }
}

} // verus!
