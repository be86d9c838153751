//! IPv4 interface addressing for the discovery core.
//!
//! An address is held as its four dotted-quad octets. The predicates here
//! select which discovered interfaces take part in a run (link-local
//! addresses are excluded) and classify the values the binding logic treats
//! specially (the wildcard address and the multicast range).

use vstd::prelude::*;

verus! {

/// A local IPv4 address, as four octets `a.b.c.d`.
#[derive(Clone, Copy, PartialEq, Eq, Structural, Debug)]
pub struct Ipv4Address {
    pub a: u8,
    pub b: u8,
    pub c: u8,
    pub d: u8,
}

impl Ipv4Address {
    pub fn new(a: u8, b: u8, c: u8, d: u8) -> (r: Ipv4Address)
        ensures
            r == (Ipv4Address { a, b, c, d }),
    {
        Ipv4Address { a, b, c, d }
    }

    /// The wildcard address `0.0.0.0`, meaning "any interface".
    pub open spec fn spec_is_unspecified(self) -> bool {
        self.a == 0 && self.b == 0 && self.c == 0 && self.d == 0
    }

    pub fn is_unspecified(&self) -> (r: bool)
        ensures
            r == self.spec_is_unspecified(),
    {
        self.a == 0 && self.b == 0 && self.c == 0 && self.d == 0
    }

    /// Link-local addresses `169.254.0.0/16` are valid only on their own
    /// segment, so interface discovery must not announce or listen on them.
    pub open spec fn spec_is_link_local(self) -> bool {
        self.a == 169 && self.b == 254
    }

    pub fn is_link_local(&self) -> (r: bool)
        ensures
            r == self.spec_is_link_local(),
    {
        self.a == 169 && self.b == 254
    }

    /// The IPv4 multicast range `224.0.0.0/4`: a usable group address for
    /// the discovery rendezvous lies in it.
    pub open spec fn spec_is_multicast(self) -> bool {
        224 <= self.a <= 239
    }

    pub fn is_multicast(&self) -> (r: bool)
        ensures
            r == self.spec_is_multicast(),
    {
        224 <= self.a && self.a <= 239
    }

    /// The wildcard address `0.0.0.0`.
    pub fn unspecified() -> (r: Ipv4Address)
        ensures
            r.spec_is_unspecified(),
    {
        Ipv4Address { a: 0, b: 0, c: 0, d: 0 }
    }
}

} // verus!
