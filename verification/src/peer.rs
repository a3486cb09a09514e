//! Peers: a name together with the address at which the node is reached.

use vstd::prelude::*;
use crate::name::{name_lt, Name};

verus! {

/// A network address: an IP address, as a number, and a port. Addresses of
/// version four come before those of version six; within a version they are
/// ordered by IP address and then by port.
#[derive(Clone, Copy, Debug, PartialEq, Eq, Structural, PartialOrd, Ord, Hash)]
#[allow(inconsistent_fields)]
pub enum Address {
    /// An address of IP version four.
    V4 {
        /// The four octets, as a big-endian number.
        ip: u32,
        /// The port.
        port: u16,
    },
    /// An address of IP version six.
    V6 {
        /// The sixteen octets, as a big-endian number.
        ip: u128,
        /// The port.
        port: u16,
    },
}

/// Whether `a` comes strictly before `b`.
pub open spec fn address_lt(a: Address, b: Address) -> bool {
    match (a, b) {
        (Address::V4 { ip: ia, port: pa }, Address::V4 { ip: ib, port: pb }) => ia < ib || (ia
            == ib && pa < pb),
        (Address::V4 { .. }, Address::V6 { .. }) => true,
        (Address::V6 { .. }, Address::V4 { .. }) => false,
        (Address::V6 { ip: ia, port: pa }, Address::V6 { ip: ib, port: pb }) => ia < ib || (ia
            == ib && pa < pb),
    }
}

impl Address {
    /// Whether this address comes strictly before `other`.
    pub fn precedes(&self, other: &Address) -> (b: bool)
        ensures
            b == address_lt(*self, *other),
    {
        match (*self, *other) {
            (Address::V4 { ip: ia, port: pa }, Address::V4 { ip: ib, port: pb }) => ia < ib || (ia
                == ib && pa < pb),
            (Address::V4 { .. }, Address::V6 { .. }) => true,
            (Address::V6 { .. }, Address::V4 { .. }) => false,
            (Address::V6 { ip: ia, port: pa }, Address::V6 { ip: ib, port: pb }) => ia < ib || (ia
                == ib && pa < pb),
        }
    }
}

/// A peer: the name of a node and its address. Two peers are the same when
/// both fields agree, and peers are ordered by name and then by address.
#[derive(Clone, Copy, Debug, PartialEq, Eq, Structural, PartialOrd, Ord, Hash)]
pub struct Peer {
    /// The name of the node.
    pub name: Name,
    /// The address of the node.
    pub addr: Address,
}

/// Whether `a` comes strictly before `b`: by name, and by address where the
/// names agree.
pub open spec fn peer_lt(a: Peer, b: Peer) -> bool {
    name_lt(a.name, b.name) || (a.name == b.name && address_lt(a.addr, b.addr))
}

impl Peer {
    /// The peer with the given name and address.
    pub fn new(name: Name, addr: Address) -> (peer: Peer)
        ensures
            peer == (Peer { name, addr }),
    {
        Peer { name, addr }
    }

    /// The name of the peer.
    pub fn name(&self) -> (name: Name)
        ensures
            name == self.name,
    {
        self.name
    }

    /// The address of the peer.
    pub fn addr(&self) -> (addr: Address)
        ensures
            addr == self.addr,
    {
        self.addr
    }

    /// The age of the peer, which is the last byte of its name.
    pub fn age(&self) -> (age: u8)
        ensures
            age == self.name.last_byte(),
    {
        let lo: u128 = self.name.lo;
        let low: u128 = lo & 0xff;
        assert(low <= 0xff && low == (lo >> 0u128) & 0xff) by (bit_vector)
            requires
                low == lo & 0xff,
        ;
        low as u8
    }

    /// Whether this peer comes strictly before `other`.
    pub fn precedes(&self, other: &Peer) -> (b: bool)
        ensures
            b == peer_lt(*self, *other),
    {
        self.name.precedes(&other.name) || (self.name == other.name && self.addr.precedes(
            &other.addr,
        ))
    }
}

/// The order of peers is a strict total order: no peer comes before itself,
/// of two different peers exactly one comes before the other, and the order
/// is transitive.
pub proof fn lemma_peer_order_is_total(a: Peer, b: Peer, c: Peer)
    ensures
        !peer_lt(a, a),
        a != b ==> (peer_lt(a, b) <==> !peer_lt(b, a)),
        a == b ==> !peer_lt(a, b),
        peer_lt(a, b) && peer_lt(b, c) ==> peer_lt(a, c),
{
}

} // verus!
