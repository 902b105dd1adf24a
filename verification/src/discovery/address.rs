//! Socket addresses as values.
use crate::order::Keyed;
use crate::wire;
use crate::wire::{arrays_equal, is_zero, push_bytes};
use vstd::prelude::*;

verus! {

/// An IP address.
#[derive(Clone, Copy, Debug, Eq, Hash)]
pub enum IpAddress {
    V4([u8; 4]),
    V6([u8; 16]),
}

impl vstd::std_specs::cmp::PartialEqSpecImpl for IpAddress {
    open spec fn obeys_eq_spec() -> bool {
        true
    }

    open spec fn eq_spec(&self, other: &Self) -> bool {
        *self == *other
    }
}

impl PartialEq for IpAddress {
    fn eq(&self, other: &Self) -> (equal: bool) {
        match (self, other) {
            (IpAddress::V4(a), IpAddress::V4(b)) => arrays_equal(a, b),
            (IpAddress::V6(a), IpAddress::V6(b)) => arrays_equal(a, b),
            _ => false,
        }
    }
}

impl Keyed for IpAddress {
    /// Addresses of the older version come first, then the bytes decide.
    open spec fn key(&self) -> Seq<u8> {
        match self {
            IpAddress::V4(octets) => seq![4u8] + octets@,
            IpAddress::V6(octets) => seq![6u8] + octets@,
        }
    }

    fn key_bytes(&self) -> (bytes: Vec<u8>) {
        let mut bytes: Vec<u8> = Vec::new();
        match self {
            IpAddress::V4(octets) => {
                bytes.push(4);
                push_bytes(&mut bytes, octets.as_slice());
            },
            IpAddress::V6(octets) => {
                bytes.push(6);
                push_bytes(&mut bytes, octets.as_slice());
            },
        }
        assert(bytes@ =~= self.key());
        bytes
    }
}

/// Different addresses sort differently.
pub proof fn lemma_ip_key_injective(a: IpAddress, b: IpAddress)
    requires
        a.key() == b.key(),
    ensures
        a == b,
{
    assert(a.key()[0] == if a is V4 { 4u8 } else { 6u8 });
    assert(b.key()[0] == if b is V4 { 4u8 } else { 6u8 });
    match (a, b) {
        (IpAddress::V4(x), IpAddress::V4(y)) => {
            assert(x@ =~= y@) by {
                assert forall|i: int| 0 <= i < 4 implies x@[i] == y@[i] by {
                    assert(a.key()[i + 1] == x@[i] && b.key()[i + 1] == y@[i]);
                }
            }
            wire::lemma_array_ext(x, y);
        },
        (IpAddress::V6(x), IpAddress::V6(y)) => {
            assert(x@ =~= y@) by {
                assert forall|i: int| 0 <= i < 16 implies x@[i] == y@[i] by {
                    assert(a.key()[i + 1] == x@[i] && b.key()[i + 1] == y@[i]);
                }
            }
            wire::lemma_array_ext(x, y);
        },
        _ => {},
    }
}

/// Whether all bytes of an address are zero.
pub open spec fn unspecified(ip: IpAddress) -> bool {
    match ip {
        IpAddress::V4(octets) => octets@ == wire::zeros(4),
        IpAddress::V6(octets) => octets@ == wire::zeros(16),
    }
}

/// Whether an address stands for a group.
pub open spec fn multicast(ip: IpAddress) -> bool {
    match ip {
        IpAddress::V4(octets) => 224 <= octets@[0] < 240,
        IpAddress::V6(octets) => octets@[0] == 255,
    }
}

impl IpAddress {
    /// Whether all bytes are zero.
    pub fn is_unspecified(&self) -> (all_zero: bool)
        ensures
            all_zero == unspecified(*self),
    {
        match self {
            IpAddress::V4(octets) => is_zero(octets),
            IpAddress::V6(octets) => is_zero(octets),
        }
    }

    /// Whether the address stands for a group.
    pub fn is_multicast(&self) -> (group: bool)
        ensures
            group == multicast(*self),
    {
        match self {
            IpAddress::V4(octets) => octets[0] >= 224 && octets[0] < 240,
            IpAddress::V6(octets) => octets[0] == 255,
        }
    }
}

/// An IP address and a port; in version 6 also the flow label and the scope.
#[derive(Clone, Copy, Debug, Eq, Hash)]
pub enum SocketAddress {
    V4 { octets: [u8; 4], port: u16 },
    V6 { octets: [u8; 16], port: u16, flow_info: u32, scope_id: u32 },
}

impl vstd::std_specs::cmp::PartialEqSpecImpl for SocketAddress {
    open spec fn obeys_eq_spec() -> bool {
        true
    }

    open spec fn eq_spec(&self, other: &Self) -> bool {
        *self == *other
    }
}

impl PartialEq for SocketAddress {
    fn eq(&self, other: &Self) -> (equal: bool) {
        match (self, other) {
            (
                SocketAddress::V4 { octets: a, port: p },
                SocketAddress::V4 { octets: b, port: q },
            ) => arrays_equal(a, b) && *p == *q,
            (
                SocketAddress::V6 { octets: a, port: p, flow_info: f, scope_id: s },
                SocketAddress::V6 { octets: b, port: q, flow_info: g, scope_id: t },
            ) => arrays_equal(a, b) && *p == *q && *f == *g && *s == *t,
            _ => false,
        }
    }
}

/// The address and the port, without flow label and scope.
pub open spec fn socket(ip: IpAddress, port: u16) -> SocketAddress {
    match ip {
        IpAddress::V4(octets) => SocketAddress::V4 { octets, port },
        IpAddress::V6(octets) => SocketAddress::V6 { octets, port, flow_info: 0, scope_id: 0 },
    }
}

/// The IP address of a socket address.
pub open spec fn ip_of(address: SocketAddress) -> IpAddress {
    match address {
        SocketAddress::V4 { octets, .. } => IpAddress::V4(octets),
        SocketAddress::V6 { octets, .. } => IpAddress::V6(octets),
    }
}

/// The port of a socket address.
pub open spec fn port_of(address: SocketAddress) -> u16 {
    match address {
        SocketAddress::V4 { port, .. } => port,
        SocketAddress::V6 { port, .. } => port,
    }
}

impl SocketAddress {
    /// An address and a port, without flow label and scope.
    pub fn new(ip: IpAddress, port: u16) -> (address: Self)
        ensures
            address == socket(ip, port),
    {
        match ip {
            IpAddress::V4(octets) => SocketAddress::V4 { octets, port },
            IpAddress::V6(octets) => SocketAddress::V6 { octets, port, flow_info: 0, scope_id: 0 },
        }
    }

    pub fn ip(&self) -> (ip: IpAddress)
        ensures
            ip == ip_of(*self),
    {
        match self {
            SocketAddress::V4 { octets, .. } => IpAddress::V4(*octets),
            SocketAddress::V6 { octets, .. } => IpAddress::V6(*octets),
        }
    }

    pub fn port(&self) -> (port: u16)
        ensures
            port == port_of(*self),
    {
        match self {
            SocketAddress::V4 { port, .. } => *port,
            SocketAddress::V6 { port, .. } => *port,
        }
    }
}

} // verus!
