//! What kinds of paths a connection runs over.
use crate::discovery::address;
use crate::discovery::address::{IpAddress, SocketAddress};
use crate::wire;
use vstd::prelude::*;

verus! {

/// The kind of a path.
#[derive(Clone, Copy, Debug, PartialEq, Eq, Structural)]
pub enum TransportPathKind {
    Direct,
    Relay,
    Other,
}

/// How far a direct path reaches.
#[derive(Clone, Copy, Debug, PartialEq, Eq, Structural)]
pub enum DirectPathScope {
    Lan,
    Wan,
}

/// What is known of a path; the round-trip time in nanoseconds.
#[derive(Clone, Copy, Debug, PartialEq, Eq, Structural)]
pub struct TransportPathStatus {
    pub kind: TransportPathKind,
    pub selected: bool,
    pub direct_scope: Option<DirectPathScope>,
    pub rtt_ns: u128,
}

/// Whether an address is one of a local network: private, link-local, loopback or shared.
pub open spec fn local_address(ip: IpAddress) -> bool {
    match ip {
        IpAddress::V4(o) => {
            ||| o@[0] == 10
            ||| o@[0] == 172 && 16 <= o@[1] <= 31
            ||| o@[0] == 192 && o@[1] == 168
            ||| o@[0] == 169 && o@[1] == 254
            ||| o@[0] == 127
            ||| o@[0] == 100 && 64 <= o@[1] <= 127
        },
        IpAddress::V6(o) => {
            ||| o@ == wire::zeros(15).push(1)
            ||| o@[0] == 252 || o@[0] == 253
            ||| o@[0] == 254 && 128 <= o@[1] <= 191
        },
    }
}

/// Whether a version 6 address is the loopback address.
fn is_loopback_v6(octets: &[u8; 16]) -> (loopback: bool)
    ensures
        loopback == (octets@ == wire::zeros(15).push(1)),
{
    let mut i: usize = 0;
    while i < 15
        invariant
            i <= 15,
            forall|j: int| 0 <= j < i ==> octets@[j] == 0,
        decreases 15 - i,
    {
        if octets[i] != 0 {
            assert(wire::zeros(15).push(1)[i as int] == 0);
            return false;
        }
        i = i + 1;
    }
    if octets[15] == 1 {
        assert(octets@ =~= wire::zeros(15).push(1));
        true
    } else {
        assert(wire::zeros(15).push(1)[15] == 1);
        false
    }
}

/// Whether an address is one of a local network.
pub fn is_lan_ip(address: IpAddress) -> (local: bool)
    ensures
        local == local_address(address),
{
    match address {
        IpAddress::V4(o) => o[0] == 10 || (o[0] == 172 && 16 <= o[1] && o[1] <= 31) || (o[0] == 192
            && o[1] == 168) || (o[0] == 169 && o[1] == 254) || o[0] == 127 || (o[0] == 100 && 64
            <= o[1] && o[1] <= 127),
        IpAddress::V6(o) => is_loopback_v6(&o) || o[0] == 252 || o[0] == 253 || (o[0] == 254 && 128
            <= o[1] && o[1] <= 191),
    }
}

/// Describes a path: `ip` and `relay` tell what it runs over, `remote` the address at its other
/// end where that is an IP address.
pub fn describe_path(ip: bool, relay: bool, remote: Option<SocketAddress>, selected: bool, rtt_ns: u128) -> (status: TransportPathStatus)
    ensures
        status == (TransportPathStatus {
            kind: if ip {
                TransportPathKind::Direct
            } else if relay {
                TransportPathKind::Relay
            } else {
                TransportPathKind::Other
            },
            selected,
            direct_scope: match remote {
                Some(remote) => if local_address(address::ip_of(remote)) {
                    Some(DirectPathScope::Lan)
                } else {
                    Some(DirectPathScope::Wan)
                },
                None => None,
            },
            rtt_ns,
        }),
        status == path_status(ip, relay, remote, selected, rtt_ns),
{
    let kind: TransportPathKind = if ip {
        TransportPathKind::Direct
    } else if relay {
        TransportPathKind::Relay
    } else {
        TransportPathKind::Other
    };
    let direct_scope: Option<DirectPathScope> = match remote {
        Some(remote) => if is_lan_ip(remote.ip()) {
            Some(DirectPathScope::Lan)
        } else {
            Some(DirectPathScope::Wan)
        },
        None => None,
    };
    TransportPathStatus { kind, selected, direct_scope, rtt_ns }
}

/// The number that the four bytes of an address of version 4 stand for.
pub open spec fn v4_number(o: [u8; 4]) -> int {
    o@[0] * 16777216 + o@[1] * 65536 + o@[2] * 256 + o@[3]
}

/// An address of version 4 is local exactly where its number lies in one of the ranges for private
/// networks, for links, for the host itself or for shared carriers.
pub proof fn law_local_v4_ranges(o: [u8; 4])
    ensures
        local_address(IpAddress::V4(o)) <==> {
            ||| 167772160 <= v4_number(o) <= 184549375
            ||| 2886729728 <= v4_number(o) <= 2887778303
            ||| 3232235520 <= v4_number(o) <= 3232301055
            ||| 2851995648 <= v4_number(o) <= 2852061183
            ||| 2130706432 <= v4_number(o) <= 2147483647
            ||| 1681915904 <= v4_number(o) <= 1686110207
        },
{
}

/// An address of version 6 is local exactly where it is that of the host itself, or its first seven
/// bits mark a unique local address, or its first ten a link.
pub proof fn law_local_v6_prefixes(o: [u8; 16])
    ensures
        local_address(IpAddress::V6(o)) <==> {
            ||| o@[15] == 1 && forall|i: int| 0 <= i < 15 ==> #[trigger] o@[i] == 0
            ||| o@[0] / 2 == 126
            ||| o@[0] == 254 && o@[1] / 64 == 2
        },
{
    if o@[15] == 1 && forall|i: int| 0 <= i < 15 ==> #[trigger] o@[i] == 0 {
        assert(o@ =~= wire::zeros(15).push(1));
    }
    if o@ == wire::zeros(15).push(1) {
        assert(wire::zeros(15).push(1)[15] == 1);
        assert forall|i: int| 0 <= i < 15 implies #[trigger] o@[i] == 0 by {
            assert(wire::zeros(15).push(1)[i] == 0);
        }
    }
}

/// What is told of a path.
pub open spec fn path_status(
    ip: bool,
    relay: bool,
    remote: Option<SocketAddress>,
    selected: bool,
    rtt_ns: u128,
) -> TransportPathStatus {
    TransportPathStatus {
        kind: if ip {
            TransportPathKind::Direct
        } else if relay {
            TransportPathKind::Relay
        } else {
            TransportPathKind::Other
        },
        selected,
        direct_scope: match remote {
            Some(remote) => if local_address(address::ip_of(remote)) {
                Some(DirectPathScope::Lan)
            } else {
                Some(DirectPathScope::Wan)
            },
            None => None,
        },
        rtt_ns,
    }
}

/// A path is direct exactly where it goes over IP, relayed exactly where it does not and goes over a
/// relay; it stays in the local network exactly where its other end is a local address.
pub proof fn law_what_is_told_of_a_path(
    ip: bool,
    relay: bool,
    remote: Option<SocketAddress>,
    selected: bool,
    rtt_ns: u128,
)
    ensures
        ({
            let status = path_status(ip, relay, remote, selected, rtt_ns);
            &&& status.kind == TransportPathKind::Direct <==> ip
            &&& status.kind == TransportPathKind::Relay <==> relay && !ip
            &&& status.direct_scope == Some(DirectPathScope::Lan) <==> (remote matches Some(r)
                && local_address(address::ip_of(r)))
            &&& status.direct_scope == Some(DirectPathScope::Wan) <==> (remote matches Some(r)
                && !local_address(address::ip_of(r)))
            &&& status.selected == selected
            &&& status.rtt_ns == rtt_ns
        }),
{
}

} // verus!
