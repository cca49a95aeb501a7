//! Plain value types for IPv4 endpoints. The codecs and the agent work on
//! these; the surrounding program converts between them and the platform's
//! socket addresses.

use vstd::prelude::*;

verus! {

/// An IPv4 address as its four octets.
#[derive(Clone, Copy, Debug, PartialEq, Eq)]
pub struct Ip4Addr {
    pub octets: [u8; 4],
}

/// An IPv4 address and UDP port.
#[derive(Clone, Copy, Debug, PartialEq, Eq)]
pub struct Sock4Addr {
    pub ip: Ip4Addr,
    pub port: u16,
}

impl Ip4Addr {
    pub fn new(a: u8, b: u8, c: u8, d: u8) -> (r: Ip4Addr)
        ensures
            r.octets@ == seq![a, b, c, d],
    {
        let octets = [a, b, c, d];
        assert(octets@ =~= seq![a, b, c, d]);
        Ip4Addr { octets }
    }
}

impl Sock4Addr {
    pub fn new(ip: Ip4Addr, port: u16) -> (r: Sock4Addr)
        ensures
            r.ip == ip,
            r.port == port,
    {
        Sock4Addr { ip, port }
    }
}

} // verus!
