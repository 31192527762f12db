//! Socket endpoints as plain values.

use crate::data::bytes::bytes_equal;
use vstd::prelude::*;

verus! {

/// An IP address: the four octets of IPv4 or the sixteen of IPv6, in
/// network order.
#[derive(Copy, Clone, Debug, PartialEq, Eq, Hash)]
pub enum IpAddress {
    V4([u8; 4]),
    V6([u8; 16]),
}

/// A socket endpoint: an address and a port.
#[derive(Copy, Clone, Debug, PartialEq, Eq, Hash)]
pub struct SocketAddress {
    pub ip: IpAddress,
    pub port: u16,
}

impl IpAddress {
    /// The octets of the address, in network order.
    pub open spec fn octets(self) -> Seq<u8> {
        match self {
            IpAddress::V4(o) => o@,
            IpAddress::V6(o) => o@,
        }
    }

    /// Whether two addresses are of the same family and hold the same octets.
    pub fn same(&self, other: &IpAddress) -> (equal: bool)
        ensures
            equal == (*self == *other),
    {
        match (self, other) {
            (IpAddress::V4(a), IpAddress::V4(b)) => {
                let equal = bytes_equal(a.as_slice(), b.as_slice());
                assert(equal ==> *a =~= *b);
                equal
            },
            (IpAddress::V6(a), IpAddress::V6(b)) => {
                let equal = bytes_equal(a.as_slice(), b.as_slice());
                assert(equal ==> *a =~= *b);
                equal
            },
            _ => false,
        }
    }
}

impl SocketAddress {
    /// Whether two endpoints have the same address and port.
    pub fn same(&self, other: &SocketAddress) -> (equal: bool)
        ensures
            equal == (*self == *other),
    {
        self.port == other.port && self.ip.same(&other.ip)
    }
}

} // verus!
