use vstd::prelude::*;

verus! {

/// An IP host, as the integer its octets spell in network order.
#[derive(Clone, Copy, Debug, PartialEq, Eq, Structural)]
pub enum IpAddress {
    V4(u32),
    V6(u128),
}

/// A (host, port) endpoint identity.
#[derive(Clone, Copy, Debug, PartialEq, Eq, Structural)]
pub struct SocketAddress {
    pub ip: IpAddress,
    pub port: u16,
}

impl SocketAddress {
    /// An IPv4 endpoint from its four octets and a port.
    pub fn v4(a: u8, b: u8, c: u8, d: u8, port: u16) -> (r: SocketAddress)
        ensures
            r.ip == IpAddress::V4(
                ((a as int) * 0x1000000 + (b as int) * 0x10000 + (c as int) * 0x100 + d as int) as u32,
            ),
            r.port == port,
    {
        let host: u32 = (a as u32) * 0x1000000 + (b as u32) * 0x10000 + (c as u32) * 0x100
            + d as u32;
        SocketAddress { ip: IpAddress::V4(host), port }
    }

    /// Whether two endpoints are the same host and port.
    pub fn same_as(&self, other: &SocketAddress) -> (r: bool)
        ensures
            r == (*self == *other),
    {
        *self == *other
    }
}

} // verus!
