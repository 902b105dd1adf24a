//! The protocols that endpoints speak with each other: their names, requests and responses.
use crate::config::chain;
use crate::config::chain::{ConfigHead, ConfigUpdateBatch};
use crate::config::envelope::ConfigError;
use crate::discovery::presence::DiscoveryError;
use crate::discovery::sealed;
use crate::discovery::sealed::EncryptedPresenceRecord;
use crate::identifiers::{
    address_among, AppAddr, ClientAddr, DeviceId, NetworkId, ScopedVirtualAddr, ServerAddr,
};
use crate::wire;
use crate::wire::{
    arrays_equal, push_be, push_bytes, read_array, read_u32, read_u64, starts_at,
};
use vstd::prelude::*;

verus! {

/// What names of reliable-stream protocols begin with.
pub const RELIABLE_STREAM_ALPN_PREFIX: [u8; 13] = [
    119,
    101,
    97,
    118,
    101,
    114,
    47,
    116,
    99,
    112,
    47,
    49,
    47,
];

/// What names of datagram protocols begin with.
pub const DATAGRAM_ALPN_PREFIX: [u8; 13] = [
    119,
    101,
    97,
    118,
    101,
    114,
    47,
    117,
    100,
    112,
    47,
    49,
    47,
];

/// What names of configuration protocols begin with.
pub const CONFIG_SYNC_ALPN_PREFIX: [u8; 21] = [
    119,
    101,
    97,
    118,
    101,
    114,
    47,
    99,
    111,
    110,
    102,
    105,
    103,
    45,
    115,
    121,
    110,
    99,
    47,
    49,
    47,
];

/// What names of presence protocols begin with.
pub const PRESENCE_ALPN_PREFIX: [u8; 18] = [
    119,
    101,
    97,
    118,
    101,
    114,
    47,
    112,
    114,
    101,
    115,
    101,
    110,
    99,
    101,
    47,
    49,
    47,
];

/// The first bytes of a reliable stream.
pub const RELIABLE_STREAM_PREFACE: [u8; 20] = [
    119,
    101,
    97,
    118,
    101,
    114,
    45,
    116,
    99,
    112,
    45,
    115,
    116,
    114,
    101,
    97,
    109,
    45,
    118,
    49,
];

/// The first bytes of a datagram association.
pub const DATAGRAM_PREFACE: [u8; 20] = [
    119,
    101,
    97,
    118,
    101,
    114,
    45,
    117,
    100,
    112,
    45,
    97,
    115,
    115,
    111,
    99,
    45,
    118,
    49,
    33,
];

/// The first bytes of a request for configurations.
pub const CONFIG_SYNC_REQUEST_MAGIC: [u8; 16] = [
    87,
    86,
    82,
    45,
    83,
    89,
    78,
    67,
    45,
    82,
    69,
    81,
    45,
    118,
    49,
    0,
];

/// The first bytes of a presence request.
pub const PRESENCE_REQUEST_MAGIC: [u8; 16] = [
    87,
    86,
    82,
    45,
    80,
    82,
    83,
    45,
    82,
    69,
    81,
    45,
    118,
    49,
    33,
    33,
];

/// The length of a request to open a stream or an association.
pub const OPEN_REQUEST_LEN: usize = 148;

pub const OPEN_RESPONSE_ACCEPTED: u8 = 0;

pub const OPEN_RESPONSE_NOT_AUTHORIZED: u8 = 1;

pub const OPEN_RESPONSE_NETWORK_MISMATCH: u8 = 2;

pub const OPEN_RESPONSE_ADDRESS_MISMATCH: u8 = 3;

pub const OPEN_RESPONSE_PROTOCOL_ERROR: u8 = 4;

/// The length of a request for configurations.
pub const CONFIG_SYNC_REQUEST_LEN: usize = 96;

pub const CONFIG_SYNC_RESPONSE_OK: u8 = 0;

pub const CONFIG_SYNC_RESPONSE_REJECTED: u8 = 1;

pub const MAX_CONFIG_SYNC_RESPONSE: usize = 16777216;

/// The length of a presence request without its record.
pub const PRESENCE_REQUEST_HEADER_LEN: usize = 93;

/// The length of a presence response without its record.
pub const PRESENCE_RESPONSE_HEADER_LEN: usize = 13;

pub const PRESENCE_OP_PUBLISH: u8 = 1;

pub const PRESENCE_OP_QUERY: u8 = 2;

pub const PRESENCE_RESPONSE_OK: u8 = 0;

pub const PRESENCE_RESPONSE_NOT_FOUND: u8 = 1;

pub const PRESENCE_RESPONSE_REJECTED: u8 = 2;

pub const MAX_PRESENCE_RECORD_BYTES: usize = 16384;

/// Why something that endpoints do with each other failed, as far as the protocols decide.
#[derive(Clone, Copy, Debug, PartialEq, Eq)]
pub enum NetworkError {
    NetworkMismatch { local: NetworkId, target: NetworkId },
    OpenRejected(&'static str),
    ProtocolViolation(&'static str),
    ServerNotBound(ServerAddr),
    ListenerAlreadyTaken(ServerAddr),
    ClientNotBound(ClientAddr),
    ConfigSyncRejected,
    ConfigSync(ConfigError),
    PresenceRejected,
    Presence(DiscoveryError),
    VirtualAddressUnresolved(AppAddr),
}

/// The name of the reliable-stream protocol of one virtual server address.
pub fn tcp_alpn(app_addr: AppAddr) -> (alpn: Vec<u8>)
    ensures
        alpn@ == RELIABLE_STREAM_ALPN_PREFIX@ + app_addr@,
{
    let mut alpn: Vec<u8> = Vec::new();
    push_bytes(&mut alpn, RELIABLE_STREAM_ALPN_PREFIX.as_slice());
    push_bytes(&mut alpn, app_addr.0.as_slice());
    alpn
}

/// The name of the datagram protocol of one virtual server address.
pub fn udp_alpn(app_addr: AppAddr) -> (alpn: Vec<u8>)
    ensures
        alpn@ == DATAGRAM_ALPN_PREFIX@ + app_addr@,
{
    let mut alpn: Vec<u8> = Vec::new();
    push_bytes(&mut alpn, DATAGRAM_ALPN_PREFIX.as_slice());
    push_bytes(&mut alpn, app_addr.0.as_slice());
    alpn
}

/// The name under which tonic runs: that of the reliable stream.
pub fn tonic_alpn(app_addr: AppAddr) -> (alpn: Vec<u8>)
    ensures
        alpn@ == RELIABLE_STREAM_ALPN_PREFIX@ + app_addr@,
{
    tcp_alpn(app_addr)
}

/// The name of the configuration protocol of one network.
pub fn config_sync_alpn(network_id: NetworkId) -> (alpn: Vec<u8>)
    ensures
        alpn@ == CONFIG_SYNC_ALPN_PREFIX@ + network_id@,
{
    let mut alpn: Vec<u8> = Vec::new();
    push_bytes(&mut alpn, CONFIG_SYNC_ALPN_PREFIX.as_slice());
    push_bytes(&mut alpn, network_id.0.as_slice());
    alpn
}

/// The name of the presence protocol of one network.
pub fn presence_alpn(network_id: NetworkId) -> (alpn: Vec<u8>)
    ensures
        alpn@ == PRESENCE_ALPN_PREFIX@ + network_id@,
{
    let mut alpn: Vec<u8> = Vec::new();
    push_bytes(&mut alpn, PRESENCE_ALPN_PREFIX.as_slice());
    push_bytes(&mut alpn, network_id.0.as_slice());
    alpn
}

/// A name tells the protocol and the address: no two applications share one, reliable streams
/// and datagrams of an application have different ones, and none of them is the name of a
/// configuration or presence protocol.
pub proof fn law_protocol_names_are_distinct(
    a: AppAddr,
    b: AppAddr,
    network: NetworkId,
    other: NetworkId,
)
    ensures
        RELIABLE_STREAM_ALPN_PREFIX@ + a@ == RELIABLE_STREAM_ALPN_PREFIX@ + b@ ==> a == b,
        DATAGRAM_ALPN_PREFIX@ + a@ == DATAGRAM_ALPN_PREFIX@ + b@ ==> a == b,
        RELIABLE_STREAM_ALPN_PREFIX@ + a@ != DATAGRAM_ALPN_PREFIX@ + b@,
        CONFIG_SYNC_ALPN_PREFIX@ + network@ == CONFIG_SYNC_ALPN_PREFIX@ + other@ ==> network
            == other,
        PRESENCE_ALPN_PREFIX@ + network@ == PRESENCE_ALPN_PREFIX@ + other@ ==> network == other,
        CONFIG_SYNC_ALPN_PREFIX@ + network@ != PRESENCE_ALPN_PREFIX@ + other@,
        RELIABLE_STREAM_ALPN_PREFIX@ + a@ != CONFIG_SYNC_ALPN_PREFIX@ + network@,
        RELIABLE_STREAM_ALPN_PREFIX@ + a@ != PRESENCE_ALPN_PREFIX@ + network@,
        DATAGRAM_ALPN_PREFIX@ + a@ != CONFIG_SYNC_ALPN_PREFIX@ + network@,
        DATAGRAM_ALPN_PREFIX@ + a@ != PRESENCE_ALPN_PREFIX@ + network@,
{
    lemma_same_tail(RELIABLE_STREAM_ALPN_PREFIX@, a@, b@);
    lemma_same_tail(DATAGRAM_ALPN_PREFIX@, a@, b@);
    lemma_same_tail(CONFIG_SYNC_ALPN_PREFIX@, network@, other@);
    lemma_same_tail(PRESENCE_ALPN_PREFIX@, network@, other@);
    if a@ == b@ {
        wire::lemma_array_ext(a.0, b.0);
    }
    if network@ == other@ {
        wire::lemma_array_ext(network.0, other.0);
    }
    assert((RELIABLE_STREAM_ALPN_PREFIX@ + a@)[7] == 116);
    assert((DATAGRAM_ALPN_PREFIX@ + b@)[7] == 117);
    assert((RELIABLE_STREAM_ALPN_PREFIX@ + a@).len() == 45);
    assert((DATAGRAM_ALPN_PREFIX@ + a@).len() == 45);
    assert((CONFIG_SYNC_ALPN_PREFIX@ + network@).len() == 53);
    assert((PRESENCE_ALPN_PREFIX@ + network@).len() == 50);
    assert((PRESENCE_ALPN_PREFIX@ + other@).len() == 50);
}

proof fn lemma_same_tail(prefix: Seq<u8>, a: Seq<u8>, b: Seq<u8>)
    requires
        a.len() == b.len(),
    ensures
        prefix + a == prefix + b ==> a == b,
{
    if prefix + a == prefix + b {
        assert forall|i: int| 0 <= i < a.len() implies a[i] == b[i] by {
            assert((prefix + a)[prefix.len() + i] == a[i]);
            assert((prefix + b)[prefix.len() + i] == b[i]);
        }
        assert(a =~= b);
    }
}

/// A request to open a stream or an association from a client address to a server address.
#[derive(Clone, Copy, Debug, PartialEq, Eq)]
pub struct OpenStreamRequest {
    pub network_id: NetworkId,
    pub source: ScopedVirtualAddr,
    pub destination: ScopedVirtualAddr,
}

/// The encoding of a request, or why there is none: only clients open, and only to servers.
pub open spec fn open_bytes(r: OpenStreamRequest, preface: Seq<u8>) -> Result<
    Seq<u8>,
    NetworkError,
> {
    match (r.source, r.destination) {
        (
            ScopedVirtualAddr::Client { app, device },
            ScopedVirtualAddr::Server { app: destination },
        ) => Ok(preface + r.network_id@ + app@ + device@ + destination@),
        (ScopedVirtualAddr::Server { .. }, _) => Err(
            NetworkError::ProtocolViolation("only client addresses may initiate TCP connections"),
        ),
        (_, ScopedVirtualAddr::Client { .. }) => Err(
            NetworkError::ProtocolViolation("TCP destination must be a server address"),
        ),
    }
}

/// The request that some bytes hold, where they begin with the right preface.
pub open spec fn read_open(b: Seq<u8>, preface: Seq<u8>) -> Option<OpenStreamRequest> {
    if b.len() == OPEN_REQUEST_LEN && b.subrange(0, 20) == preface {
        Some(
            OpenStreamRequest {
                network_id: NetworkId(wire::array_at(b, 20)),
                source: ScopedVirtualAddr::Client {
                    app: AppAddr(wire::array_at(b, 52)),
                    device: DeviceId(wire::array_at(b, 84)),
                },
                destination: ScopedVirtualAddr::Server { app: AppAddr(wire::array_at(b, 116)) },
            },
        )
    } else {
        None
    }
}

impl OpenStreamRequest {
    /// The request for a reliable stream.
    pub fn encode(self) -> (bytes: Result<[u8; 148], NetworkError>)
        ensures
            match open_bytes(self, RELIABLE_STREAM_PREFACE@) {
                Ok(value) => bytes matches Ok(bytes) && bytes@ == value,
                Err(reason) => bytes matches Err(error) && error == reason,
            },
    {
        self.encode_with_preface(&RELIABLE_STREAM_PREFACE)
    }

    /// The request for a datagram association.
    pub fn encode_datagram(self) -> (bytes: Result<[u8; 148], NetworkError>)
        ensures
            match open_bytes(self, DATAGRAM_PREFACE@) {
                Ok(value) => bytes matches Ok(bytes) && bytes@ == value,
                Err(reason) => bytes matches Err(error) && error == reason,
            },
    {
        self.encode_with_preface(&DATAGRAM_PREFACE)
    }

    fn encode_with_preface(self, preface: &[u8; 20]) -> (bytes: Result<[u8; 148], NetworkError>)
        ensures
            match open_bytes(self, preface@) {
                Ok(value) => bytes matches Ok(bytes) && bytes@ == value,
                Err(reason) => bytes matches Err(error) && error == reason,
            },
    {
        let (app, device) = match self.source {
            ScopedVirtualAddr::Client { app, device } => (app, device),
            ScopedVirtualAddr::Server { .. } => return Err(
                NetworkError::ProtocolViolation(
                    "only client addresses may initiate TCP connections",
                ),
            ),
        };
        let destination: AppAddr = match self.destination {
            ScopedVirtualAddr::Server { app } => app,
            ScopedVirtualAddr::Client { .. } => return Err(
                NetworkError::ProtocolViolation("TCP destination must be a server address"),
            ),
        };
        let mut out: Vec<u8> = Vec::new();
        push_bytes(&mut out, preface.as_slice());
        push_bytes(&mut out, self.network_id.0.as_slice());
        push_bytes(&mut out, app.0.as_slice());
        push_bytes(&mut out, device.0.as_slice());
        push_bytes(&mut out, destination.0.as_slice());
        Ok(fixed::<148>(&out))
    }

    /// Reads a request for a reliable stream.
    pub fn decode(bytes: &[u8; 148]) -> (request: Option<Self>)
        ensures
            request == read_open(bytes@, RELIABLE_STREAM_PREFACE@),
    {
        Self::decode_with_preface(bytes, &RELIABLE_STREAM_PREFACE)
    }

    /// Reads a request for a datagram association.
    pub fn decode_datagram(bytes: &[u8; 148]) -> (request: Option<Self>)
        ensures
            request == read_open(bytes@, DATAGRAM_PREFACE@),
    {
        Self::decode_with_preface(bytes, &DATAGRAM_PREFACE)
    }

    fn decode_with_preface(bytes: &[u8; 148], preface: &[u8; 20]) -> (request: Option<Self>)
        ensures
            request == read_open(bytes@, preface@),
    {
        let raw: &[u8] = bytes.as_slice();
        if !starts_at(raw, 0, preface.as_slice()) {
            return None;
        }
        Some(
            OpenStreamRequest {
                network_id: NetworkId(read_array::<32>(raw, 20)),
                source: ScopedVirtualAddr::Client {
                    app: AppAddr(read_array::<32>(raw, 52)),
                    device: DeviceId(read_array::<32>(raw, 84)),
                },
                destination: ScopedVirtualAddr::Server { app: AppAddr(read_array::<32>(raw, 116)) },
            },
        )
    }
}

/// The bytes of a vector of known length as an array.
fn fixed<const N: usize>(bytes: &Vec<u8>) -> (array: [u8; N])
    requires
        bytes@.len() == N,
    ensures
        array@ == bytes@,
{
    proof {
        wire::lemma_array_exists::<N>(bytes@);
        assert(bytes@.subrange(0, N as int) =~= bytes@);
    }
    read_array::<N>(bytes.as_slice(), 0)
}

/// A request that can be written is read back unchanged under its own preface, and not at all
/// under another.
pub proof fn law_open_request_round_trip(r: OpenStreamRequest, preface: Seq<u8>, other: Seq<u8>)
    requires
        preface.len() == 20,
        open_bytes(r, preface) is Ok,
        other != preface,
    ensures
        read_open(open_bytes(r, preface)->Ok_0, preface) == Some(r),
        read_open(open_bytes(r, preface)->Ok_0, other) is None,
{
    let b = open_bytes(r, preface)->Ok_0;
    match (r.source, r.destination) {
        (
            ScopedVirtualAddr::Client { app, device },
            ScopedVirtualAddr::Server { app: destination },
        ) => {
            wire::lemma_array_of(r.network_id.0);
            wire::lemma_array_of(app.0);
            wire::lemma_array_of(device.0);
            wire::lemma_array_of(destination.0);
            assert(b.subrange(0, 20) =~= preface);
            assert(b.subrange(20, 52) =~= r.network_id@);
            assert(b.subrange(52, 84) =~= app@);
            assert(b.subrange(84, 116) =~= device@);
            assert(b.subrange(116, 148) =~= destination@);
        },
        _ => {},
    }
}

/// Only one sequence of bytes reads as a given request under a preface: its encoding.
pub proof fn law_open_request_canonical(b: Seq<u8>, preface: Seq<u8>)
    requires
        preface.len() == 20,
    ensures
        read_open(b, preface) matches Some(r) ==> open_bytes(r, preface) == Ok::<
            Seq<u8>,
            NetworkError,
        >(b),
{
    if read_open(b, preface) is Some {
        wire::lemma_array_exists::<32>(b.subrange(20, 52));
        wire::lemma_array_exists::<32>(b.subrange(52, 84));
        wire::lemma_array_exists::<32>(b.subrange(84, 116));
        wire::lemma_array_exists::<32>(b.subrange(116, 148));
        assert(b.subrange(0, 20) == preface);
        assert(b =~= b.subrange(0, 20) + b.subrange(20, 52) + b.subrange(52, 84) + b.subrange(84, 116)
            + b.subrange(116, 148));
    }
}

/// How a request to open is answered: a request that cannot be read, that is for another network
/// or another address, or whose source the peer may not use, is turned down for the first of
/// these reasons that applies.
pub open spec fn open_answer(
    request: Option<OpenStreamRequest>,
    network: NetworkId,
    local_addr: ScopedVirtualAddr,
    allowed: Seq<ScopedVirtualAddr>,
) -> u8 {
    match request {
        None => OPEN_RESPONSE_PROTOCOL_ERROR,
        Some(r) => if r.network_id != network {
            OPEN_RESPONSE_NETWORK_MISMATCH
        } else if r.destination != local_addr {
            OPEN_RESPONSE_ADDRESS_MISMATCH
        } else if !allowed.contains(r.source) {
            OPEN_RESPONSE_NOT_AUTHORIZED
        } else {
            OPEN_RESPONSE_ACCEPTED
        },
    }
}

/// Decides how a request to open is answered; `allowed` are the addresses that the authenticated
/// peer may use.
pub fn answer_open(
    request: Option<OpenStreamRequest>,
    network_id: NetworkId,
    local_addr: ScopedVirtualAddr,
    allowed: &Vec<ScopedVirtualAddr>,
) -> (response: u8)
    ensures
        response == open_answer(request, network_id, local_addr, allowed@),
{
    let request: OpenStreamRequest = match request {
        Some(request) => request,
        None => return OPEN_RESPONSE_PROTOCOL_ERROR,
    };
    if request.network_id != network_id {
        return OPEN_RESPONSE_NETWORK_MISMATCH;
    }
    if request.destination != local_addr {
        return OPEN_RESPONSE_ADDRESS_MISMATCH;
    }
    if address_among(allowed, request.source) {
        OPEN_RESPONSE_ACCEPTED
    } else {
        OPEN_RESPONSE_NOT_AUTHORIZED
    }
}

/// Nothing is accepted by default: an accepted request was readable, for this network and this
/// address, and from a source that the peer was given; a peer that was given nothing is never
/// accepted.
pub proof fn law_open_is_denied_by_default(
    request: Option<OpenStreamRequest>,
    network: NetworkId,
    local_addr: ScopedVirtualAddr,
    allowed: Seq<ScopedVirtualAddr>,
)
    ensures
        open_answer(request, network, local_addr, allowed) == OPEN_RESPONSE_ACCEPTED <==> (request
            matches Some(r) && r.network_id == network && r.destination == local_addr
            && allowed.contains(r.source)),
        allowed.len() == 0 ==> open_answer(request, network, local_addr, allowed)
            != OPEN_RESPONSE_ACCEPTED,
{
}

/// What a response to a datagram request says.
pub fn open_response_reason(response: u8) -> (reason: &'static str)
    ensures
        reason@ == (if response == OPEN_RESPONSE_NOT_AUTHORIZED {
            "not authorized"@
        } else if response == OPEN_RESPONSE_NETWORK_MISMATCH {
            "network mismatch"@
        } else if response == OPEN_RESPONSE_ADDRESS_MISMATCH {
            "virtual address mismatch"@
        } else if response == OPEN_RESPONSE_PROTOCOL_ERROR {
            "protocol error"@
        } else {
            "unknown response code"@
        }),
{
    if response == OPEN_RESPONSE_NOT_AUTHORIZED {
        "not authorized"
    } else if response == OPEN_RESPONSE_NETWORK_MISMATCH {
        "network mismatch"
    } else if response == OPEN_RESPONSE_ADDRESS_MISMATCH {
        "virtual address mismatch"
    } else if response == OPEN_RESPONSE_PROTOCOL_ERROR {
        "protocol error"
    } else {
        "unknown response code"
    }
}

/// What becomes of a stream that a peer answered for.
pub open spec fn stream_outcome(response: u8) -> Result<(), NetworkError> {
    if response == OPEN_RESPONSE_ACCEPTED {
        Ok(())
    } else if response == OPEN_RESPONSE_NOT_AUTHORIZED {
        Err(NetworkError::OpenRejected("not authorized"))
    } else if response == OPEN_RESPONSE_NETWORK_MISMATCH {
        Err(NetworkError::OpenRejected("network mismatch"))
    } else if response == OPEN_RESPONSE_ADDRESS_MISMATCH {
        Err(NetworkError::OpenRejected("virtual address mismatch"))
    } else if response == OPEN_RESPONSE_PROTOCOL_ERROR {
        Err(NetworkError::OpenRejected("protocol error"))
    } else {
        Err(NetworkError::ProtocolViolation("unknown open response code"))
    }
}

/// Reads the answer to a request for a stream.
pub fn read_open_response(response: u8) -> (outcome: Result<(), NetworkError>)
    ensures
        outcome == stream_outcome(response),
{
    if response == OPEN_RESPONSE_ACCEPTED {
        Ok(())
    } else if response == OPEN_RESPONSE_NOT_AUTHORIZED {
        Err(NetworkError::OpenRejected("not authorized"))
    } else if response == OPEN_RESPONSE_NETWORK_MISMATCH {
        Err(NetworkError::OpenRejected("network mismatch"))
    } else if response == OPEN_RESPONSE_ADDRESS_MISMATCH {
        Err(NetworkError::OpenRejected("virtual address mismatch"))
    } else if response == OPEN_RESPONSE_PROTOCOL_ERROR {
        Err(NetworkError::OpenRejected("protocol error"))
    } else {
        Err(NetworkError::ProtocolViolation("unknown open response code"))
    }
}

/// The encoding of a request for the configurations after a head.
pub open spec fn config_sync_bytes(network: NetworkId, head: ConfigHead) -> Seq<u8> {
    CONFIG_SYNC_REQUEST_MAGIC@ + network@ + wire::be(head.epoch as nat, 8) + wire::be(
        head.revision as nat,
        8,
    ) + head.hash@
}

/// The request for configurations that some bytes hold.
pub open spec fn read_config_sync(b: Seq<u8>) -> Option<(NetworkId, ConfigHead)> {
    if b.len() == CONFIG_SYNC_REQUEST_LEN && wire::has_at(b, 0, CONFIG_SYNC_REQUEST_MAGIC@) {
        Some(
            (
                NetworkId(wire::array_at(b, 16)),
                ConfigHead {
                    epoch: wire::u64_at(b, 48),
                    revision: wire::u64_at(b, 56),
                    hash: wire::array_at(b, 64),
                },
            ),
        )
    } else {
        None
    }
}

/// A request for configurations is read back unchanged.
pub proof fn law_config_sync_request_round_trip(network: NetworkId, head: ConfigHead)
    ensures
        read_config_sync(config_sync_bytes(network, head)) == Some((network, head)),
{
    let b = config_sync_bytes(network, head);
    wire::lemma_pow256_values();
    wire::lemma_be_len(head.epoch as nat, 8);
    wire::lemma_be_len(head.revision as nat, 8);
    wire::lemma_from_be_of_be(head.epoch as nat, 8);
    wire::lemma_from_be_of_be(head.revision as nat, 8);
    wire::lemma_array_of(network.0);
    wire::lemma_array_of(head.hash);
    assert(b.subrange(0, 16) =~= CONFIG_SYNC_REQUEST_MAGIC@);
    assert(b.subrange(16, 48) =~= network@);
    assert(b.subrange(48, 56) =~= wire::be(head.epoch as nat, 8));
    assert(b.subrange(56, 64) =~= wire::be(head.revision as nat, 8));
    assert(b.subrange(64, 96) =~= head.hash@);
}

/// Only one sequence of bytes reads as a given request for configurations: its encoding.
pub proof fn law_config_sync_request_canonical(b: Seq<u8>)
    ensures
        read_config_sync(b) matches Some((network, head)) ==> config_sync_bytes(network, head) == b,
{
    if read_config_sync(b) is Some {
        wire::lemma_pow256_values();
        wire::lemma_array_exists::<32>(b.subrange(16, 48));
        wire::lemma_be_of_from_be(b.subrange(48, 56));
        wire::lemma_be_of_from_be(b.subrange(56, 64));
        wire::lemma_array_exists::<32>(b.subrange(64, 96));
        assert(b.subrange(0, 16) == CONFIG_SYNC_REQUEST_MAGIC@);
        assert(b =~= b.subrange(0, 16) + b.subrange(16, 48) + b.subrange(48, 56) + b.subrange(56, 64)
            + b.subrange(64, 96));
    }
}

pub fn encode_config_sync_request(network_id: NetworkId, base_head: ConfigHead) -> (bytes: [u8; 96])
    ensures
        bytes@ == config_sync_bytes(network_id, base_head),
{
    let mut out: Vec<u8> = Vec::new();
    push_bytes(&mut out, CONFIG_SYNC_REQUEST_MAGIC.as_slice());
    push_bytes(&mut out, network_id.0.as_slice());
    push_be(&mut out, base_head.epoch, 8);
    push_be(&mut out, base_head.revision, 8);
    push_bytes(&mut out, base_head.hash.as_slice());
    proof {
        wire::lemma_be_len(base_head.epoch as nat, 8);
        wire::lemma_be_len(base_head.revision as nat, 8);
    }
    fixed::<96>(&out)
}

pub fn decode_config_sync_request(bytes: &[u8; 96]) -> (request: Option<(NetworkId, ConfigHead)>)
    ensures
        request == read_config_sync(bytes@),
{
    let raw: &[u8] = bytes.as_slice();
    if !starts_at(raw, 0, CONFIG_SYNC_REQUEST_MAGIC.as_slice()) {
        return None;
    }
    Some(
        (
            NetworkId(read_array::<32>(raw, 16)),
            ConfigHead {
                epoch: read_u64(raw, 48),
                revision: read_u64(raw, 56),
                hash: read_array::<32>(raw, 64),
            },
        ),
    )
}

/// Whether two heads are the same.
pub fn same_head(a: &ConfigHead, b: &ConfigHead) -> (same: bool)
    ensures
        same == (*a == *b),
{
    a.epoch == b.epoch && a.revision == b.revision && arrays_equal(&a.hash, &b.hash)
}

/// The head from which configurations are to be looked up, where the request is readable and for
/// this network.
pub fn requested_head(request: Option<[u8; 96]>, network_id: NetworkId) -> (head: Option<ConfigHead>)
    ensures
        head == (match request {
            None => None,
            Some(bytes) => match read_config_sync(bytes@) {
                Some((network, head)) => if network == network_id {
                    Some(head)
                } else {
                    None
                },
                None => None,
            },
        }),
        head == head_asked_from(
            match request {
                Some(bytes) => Some(bytes@),
                None => None,
            },
            network_id,
        ),
{
    match request {
        None => None,
        Some(bytes) => match decode_config_sync_request(&bytes) {
            Some((network, head)) => if network == network_id {
                Some(head)
            } else {
                None
            },
            None => None,
        },
    }
}

/// The response to a request for configurations: the batch behind its length, where there is one
/// that fits the request and can be written; else a refusal.
pub open spec fn config_sync_reply(
    network: NetworkId,
    head: ConfigHead,
    updates: Option<chain::Batch>,
) -> Seq<u8> {
    let refusal = seq![CONFIG_SYNC_RESPONSE_REJECTED, 0u8, 0u8, 0u8, 0u8];
    match updates {
        None => refusal,
        Some(b) => if b.network_id == network && b.base_head == head && chain::batch_verdict(b) is Ok
            && chain::batch_bytes(b).len() <= MAX_CONFIG_SYNC_RESPONSE {
            seq![CONFIG_SYNC_RESPONSE_OK] + wire::be(chain::batch_bytes(b).len(), 4)
                + chain::batch_bytes(b)
        } else {
            refusal
        },
    }
}

/// The contents of an optional batch.
pub open spec fn batch_view(updates: Option<ConfigUpdateBatch>) -> Option<chain::Batch> {
    match updates {
        Some(batch) => Some(batch@),
        None => None,
    }
}

/// Writes the response to a request for configurations.
pub fn config_sync_response(
    network_id: NetworkId,
    base_head: ConfigHead,
    updates: &Option<ConfigUpdateBatch>,
) -> (response: Vec<u8>)
    ensures
        response@ == config_sync_reply(network_id, base_head, batch_view(*updates)),
{
    let mut response: Vec<u8> = Vec::new();
    match updates {
        Some(batch) => {
            if batch.network_id == network_id && same_head(&batch.base_head, &base_head) {
                match batch.to_bytes() {
                    Ok(bytes) => {
                        if bytes.len() <= MAX_CONFIG_SYNC_RESPONSE {
                            response.push(CONFIG_SYNC_RESPONSE_OK);
                            push_be(&mut response, bytes.len() as u64, 4);
                            push_bytes(&mut response, bytes.as_slice());
                            assert(response@ =~= seq![CONFIG_SYNC_RESPONSE_OK] + wire::be(
                                bytes@.len(),
                                4,
                            ) + bytes@);
                            return response;
                        }
                    },
                    Err(_) => {},
                }
            }
        },
        None => {},
    }
    response.push(CONFIG_SYNC_RESPONSE_REJECTED);
    response.push(0);
    response.push(0);
    response.push(0);
    response.push(0);
    assert(response@ =~= seq![CONFIG_SYNC_RESPONSE_REJECTED, 0u8, 0u8, 0u8, 0u8]);
    response
}

/// How long the batch is that a response announces.
pub fn config_sync_response_len(header: &[u8; 5]) -> (len: Result<usize, NetworkError>)
    ensures
        len == (if header@[0] != CONFIG_SYNC_RESPONSE_OK {
            Err(NetworkError::ConfigSyncRejected)
        } else if wire::u32_at(header@, 1) > MAX_CONFIG_SYNC_RESPONSE {
            Err(NetworkError::ProtocolViolation("config sync response exceeds limit"))
        } else {
            Ok::<usize, NetworkError>(wire::u32_at(header@, 1) as usize)
        }),
        len == sync_len(header@),
{
    if header[0] != CONFIG_SYNC_RESPONSE_OK {
        return Err(NetworkError::ConfigSyncRejected);
    }
    let len: usize = read_u32(header.as_slice(), 1) as usize;
    if len > MAX_CONFIG_SYNC_RESPONSE {
        return Err(NetworkError::ProtocolViolation("config sync response exceeds limit"));
    }
    Ok(len)
}

/// What becomes of the batch in a response.
pub open spec fn sync_verdict(b: Seq<u8>, network: NetworkId, head: ConfigHead) -> Result<
    chain::Batch,
    NetworkError,
> {
    match chain::read_batch(b) {
        Err(reason) => Err(NetworkError::ConfigSync(reason)),
        Ok(batch) => if batch.network_id != network || batch.base_head != head {
            Err(NetworkError::ProtocolViolation("config sync response does not match request"))
        } else {
            Ok(batch)
        },
    }
}

/// Reads the batch in a response.
pub fn read_config_updates(bytes: &[u8], network_id: NetworkId, base_head: ConfigHead) -> (updates: Result<
    ConfigUpdateBatch,
    NetworkError,
>)
    ensures
        match sync_verdict(bytes@, network_id, base_head) {
            Ok(batch) => updates matches Ok(updates) && updates@ == batch,
            Err(reason) => updates matches Err(error) && error == reason,
        },
{
    match ConfigUpdateBatch::from_bytes(bytes) {
        Err(error) => Err(NetworkError::ConfigSync(error)),
        Ok(batch) => if batch.network_id != network_id || !same_head(&batch.base_head, &base_head) {
            Err(NetworkError::ProtocolViolation("config sync response does not match request"))
        } else {
            Ok(batch)
        },
    }
}

/// What a peer serves, a requester accepts: the response to a request holds exactly the batch
/// that was looked up, where it fits the request and is not too long.
pub proof fn law_config_sync_delivers_the_batch(
    network: NetworkId,
    head: ConfigHead,
    batch: chain::Batch,
)
    requires
        batch.network_id == network,
        batch.base_head == head,
        chain::batch_verdict(batch) is Ok,
        chain::batch_bytes(batch).len() <= MAX_CONFIG_SYNC_RESPONSE,
    ensures
        ({
            let reply = config_sync_reply(network, head, Some(batch));
            let body = reply.subrange(5, reply.len() as int);
            &&& reply[0] == CONFIG_SYNC_RESPONSE_OK
            &&& wire::u32_at(reply, 1) == body.len()
            &&& sync_verdict(body, network, head) == Ok::<chain::Batch, NetworkError>(batch)
        }),
{
    let reply = config_sync_reply(network, head, Some(batch));
    let bytes = chain::batch_bytes(batch);
    wire::lemma_pow256_values();
    wire::lemma_be_len(bytes.len(), 4);
    wire::lemma_from_be_of_be(bytes.len(), 4);
    assert(reply.subrange(1, 5) =~= wire::be(bytes.len(), 4));
    assert(reply.subrange(5, reply.len() as int) =~= bytes);
    chain::law_batch_round_trip(batch);
}

/// A request to a presence service.
#[derive(Clone, Copy, Debug, PartialEq, Eq)]
pub struct PresenceRequest {
    pub network_id: NetworkId,
    pub operation: u8,
    pub epoch: u64,
    pub opaque_key: [u8; 24],
    pub expires_at_ms: u64,
    pub body_len: usize,
}

/// The encoding of a presence request.
pub open spec fn presence_request_bytes(r: PresenceRequest) -> Seq<u8> {
    PRESENCE_REQUEST_MAGIC@ + r.network_id@ + seq![r.operation] + wire::be(r.epoch as nat, 8)
        + r.opaque_key@ + wire::be(r.expires_at_ms as nat, 8) + wire::be(r.body_len as nat, 4)
}

/// Whether a request is one that a service answers: it publishes a record that is not too long,
/// or asks and carries nothing.
pub open spec fn presence_request_ok(r: PresenceRequest) -> bool {
    &&& r.body_len <= MAX_PRESENCE_RECORD_BYTES
    &&& r.operation == PRESENCE_OP_PUBLISH || r.operation == PRESENCE_OP_QUERY
    &&& r.operation == PRESENCE_OP_QUERY ==> r.body_len == 0 && r.expires_at_ms == 0
    &&& r.operation == PRESENCE_OP_PUBLISH ==> r.body_len != 0
}

/// The presence request that some bytes hold.
pub open spec fn read_presence_request(b: Seq<u8>) -> Option<PresenceRequest> {
    if b.len() == PRESENCE_REQUEST_HEADER_LEN && wire::has_at(b, 0, PRESENCE_REQUEST_MAGIC@) {
        let r = PresenceRequest {
            network_id: NetworkId(wire::array_at(b, 16)),
            operation: b[48],
            epoch: wire::u64_at(b, 49),
            opaque_key: wire::array_at(b, 57),
            expires_at_ms: wire::u64_at(b, 81),
            body_len: wire::u32_at(b, 89) as usize,
        };
        if presence_request_ok(r) {
            Some(r)
        } else {
            None
        }
    } else {
        None
    }
}

/// A request that a service answers is read back unchanged.
pub proof fn law_presence_request_round_trip(r: PresenceRequest)
    requires
        presence_request_ok(r),
    ensures
        read_presence_request(presence_request_bytes(r)) == Some(r),
{
    let b = presence_request_bytes(r);
    wire::lemma_pow256_values();
    wire::lemma_be_len(r.epoch as nat, 8);
    wire::lemma_be_len(r.expires_at_ms as nat, 8);
    wire::lemma_be_len(r.body_len as nat, 4);
    wire::lemma_from_be_of_be(r.epoch as nat, 8);
    wire::lemma_from_be_of_be(r.expires_at_ms as nat, 8);
    wire::lemma_from_be_of_be(r.body_len as nat, 4);
    wire::lemma_array_of(r.network_id.0);
    wire::lemma_array_of(r.opaque_key);
    assert(b.subrange(0, 16) =~= PRESENCE_REQUEST_MAGIC@);
    assert(b.subrange(16, 48) =~= r.network_id@);
    assert(b[48] == r.operation);
    assert(b.subrange(49, 57) =~= wire::be(r.epoch as nat, 8));
    assert(b.subrange(57, 81) =~= r.opaque_key@);
    assert(b.subrange(81, 89) =~= wire::be(r.expires_at_ms as nat, 8));
    assert(b.subrange(89, 93) =~= wire::be(r.body_len as nat, 4));
}

/// Only one sequence of bytes reads as a given presence request: its encoding.
pub proof fn law_presence_request_canonical(b: Seq<u8>)
    ensures
        read_presence_request(b) matches Some(r) ==> presence_request_bytes(r) == b,
{
    if read_presence_request(b) is Some {
        wire::lemma_pow256_values();
        wire::lemma_array_exists::<32>(b.subrange(16, 48));
        wire::lemma_be_of_from_be(b.subrange(49, 57));
        wire::lemma_array_exists::<24>(b.subrange(57, 81));
        wire::lemma_be_of_from_be(b.subrange(81, 89));
        wire::lemma_be_of_from_be(b.subrange(89, 93));
        assert(b.subrange(0, 16) == PRESENCE_REQUEST_MAGIC@);
        assert(b =~= b.subrange(0, 16) + b.subrange(16, 48) + seq![b[48]] + b.subrange(49, 57)
            + b.subrange(57, 81) + b.subrange(81, 89) + b.subrange(89, 93));
    }
}

/// Writes a presence request, if the length of its record fits.
pub fn encode_presence_request(
    network_id: NetworkId,
    operation: u8,
    epoch: u64,
    opaque_key: [u8; 24],
    expires_at_ms: u64,
    body_len: usize,
) -> (bytes: Result<[u8; 93], NetworkError>)
    ensures
        if body_len > u32::MAX {
            bytes matches Err(error) && error == NetworkError::ProtocolViolation(
                "presence request exceeds limit",
            )
        } else {
            bytes matches Ok(bytes) && bytes@ == presence_request_bytes(
                PresenceRequest {
                    network_id,
                    operation,
                    epoch,
                    opaque_key,
                    expires_at_ms,
                    body_len,
                },
            )
        },
{
    if body_len > 0xffff_ffff {
        return Err(NetworkError::ProtocolViolation("presence request exceeds limit"));
    }
    let mut out: Vec<u8> = Vec::new();
    push_bytes(&mut out, PRESENCE_REQUEST_MAGIC.as_slice());
    push_bytes(&mut out, network_id.0.as_slice());
    out.push(operation);
    push_be(&mut out, epoch, 8);
    push_bytes(&mut out, opaque_key.as_slice());
    push_be(&mut out, expires_at_ms, 8);
    push_be(&mut out, body_len as u64, 4);
    let ghost r = PresenceRequest {
        network_id,
        operation,
        epoch,
        opaque_key,
        expires_at_ms,
        body_len,
    };
    proof {
        assert(out@ =~= presence_request_bytes(r));
        wire::lemma_be_len(r.epoch as nat, 8);
        wire::lemma_be_len(r.expires_at_ms as nat, 8);
        wire::lemma_be_len(r.body_len as nat, 4);
    }
    Ok(fixed::<93>(&out))
}

pub fn decode_presence_request(bytes: &[u8; 93]) -> (request: Option<PresenceRequest>)
    ensures
        request == read_presence_request(bytes@),
{
    let raw: &[u8] = bytes.as_slice();
    if !starts_at(raw, 0, PRESENCE_REQUEST_MAGIC.as_slice()) {
        return None;
    }
    let r = PresenceRequest {
        network_id: NetworkId(read_array::<32>(raw, 16)),
        operation: bytes[48],
        epoch: read_u64(raw, 49),
        opaque_key: read_array::<24>(raw, 57),
        expires_at_ms: read_u64(raw, 81),
        body_len: read_u32(raw, 89) as usize,
    };
    if r.body_len > MAX_PRESENCE_RECORD_BYTES || (r.operation != PRESENCE_OP_PUBLISH && r.operation
        != PRESENCE_OP_QUERY) || (r.operation == PRESENCE_OP_QUERY && (r.body_len != 0
        || r.expires_at_ms != 0)) || (r.operation == PRESENCE_OP_PUBLISH && r.body_len == 0) {
        return None;
    }
    Some(r)
}

/// What a presence service does for a peer.
#[derive(Clone, Copy, Debug, PartialEq, Eq)]
pub enum PresenceAction {
    /// Read the record of the request and publish it.
    Publish(PresenceRequest),
    /// Look up what the request asks for.
    Query(PresenceRequest),
    /// Turn the request down.
    Reject,
}

/// What a service does about a request.
pub open spec fn presence_plan(request: Option<PresenceRequest>, network: NetworkId) -> PresenceAction {
    match request {
        None => PresenceAction::Reject,
        Some(r) => if r.network_id != network {
            PresenceAction::Reject
        } else if r.operation == PRESENCE_OP_PUBLISH {
            PresenceAction::Publish(r)
        } else {
            PresenceAction::Query(r)
        },
    }
}

/// Decides what a service does about the header of a request, or about none that came in time.
pub fn plan_presence(header: Option<[u8; 93]>, network_id: NetworkId) -> (action: PresenceAction)
    ensures
        action == presence_plan(
            match header {
                Some(bytes) => read_presence_request(bytes@),
                None => None,
            },
            network_id,
        ),
{
    let request: Option<PresenceRequest> = match header {
        Some(bytes) => decode_presence_request(&bytes),
        None => None,
    };
    match request {
        None => PresenceAction::Reject,
        Some(r) => if r.network_id != network_id {
            PresenceAction::Reject
        } else if r.operation == PRESENCE_OP_PUBLISH {
            PresenceAction::Publish(r)
        } else {
            PresenceAction::Query(r)
        },
    }
}

/// Whether a record that is to be published is readable and belongs to the epoch and the key of
/// the request.
pub fn publishable(request: &PresenceRequest, body: &[u8]) -> (fits: bool)
    ensures
        fits == (sealed::read_sealed(body@) matches Ok(s) && s.epoch == request.epoch
            && s.opaque_key == request.opaque_key),
{
    match EncryptedPresenceRecord::from_bytes(body) {
        Ok(record) => record.epoch == request.epoch && arrays_equal(
            &record.opaque_key,
            &request.opaque_key,
        ),
        Err(_) => false,
    }
}

/// What came of a request at the store.
#[derive(Clone, Copy, Debug, PartialEq, Eq, Structural)]
pub enum StoreOutcome {
    /// A record was found.
    Found,
    /// A record was published.
    Published,
    /// There is no such record.
    Missing,
    /// The request was turned down or failed.
    Failed,
}

/// How what came of a request is reported.
pub open spec fn presence_status(outcome: StoreOutcome) -> u8 {
    match outcome {
        StoreOutcome::Found => PRESENCE_RESPONSE_OK,
        StoreOutcome::Published => PRESENCE_RESPONSE_OK,
        StoreOutcome::Missing => PRESENCE_RESPONSE_NOT_FOUND,
        StoreOutcome::Failed => PRESENCE_RESPONSE_REJECTED,
    }
}

/// The header of a presence response.
pub open spec fn presence_response_bytes(status: u8, now_ms: u64, body_len: nat) -> Seq<u8> {
    seq![status] + wire::be(now_ms as nat, 8) + wire::be(body_len, 4)
}

/// Writes the header of a presence response.
pub fn presence_response(outcome: StoreOutcome, now_ms: u64, body_len: u32) -> (header: [u8; 13])
    ensures
        header@ == presence_response_bytes(presence_status(outcome), now_ms, body_len as nat),
{
    let status: u8 = match outcome {
        StoreOutcome::Found => PRESENCE_RESPONSE_OK,
        StoreOutcome::Published => PRESENCE_RESPONSE_OK,
        StoreOutcome::Missing => PRESENCE_RESPONSE_NOT_FOUND,
        StoreOutcome::Failed => PRESENCE_RESPONSE_REJECTED,
    };
    let mut out: Vec<u8> = Vec::new();
    out.push(status);
    push_be(&mut out, now_ms, 8);
    push_be(&mut out, body_len as u64, 4);
    proof {
        wire::lemma_be_len(now_ms as nat, 8);
        wire::lemma_be_len(body_len as nat, 4);
        assert(out@ =~= presence_response_bytes(status, now_ms, body_len as nat));
    }
    fixed::<13>(&out)
}

/// What a response announces: how long a record follows, or that there is none.
pub open spec fn reply_verdict(header: Seq<u8>, operation: u8) -> Result<Option<usize>, NetworkError> {
    let len = wire::u32_at(header, 9);
    if len > MAX_PRESENCE_RECORD_BYTES {
        Err(NetworkError::ProtocolViolation("presence response exceeds limit"))
    } else if header[0] == PRESENCE_RESPONSE_OK {
        if operation == PRESENCE_OP_PUBLISH && len != 0 {
            Err(NetworkError::ProtocolViolation("presence publish response has a payload"))
        } else {
            Ok(Some(len as usize))
        }
    } else if header[0] == PRESENCE_RESPONSE_NOT_FOUND && operation == PRESENCE_OP_QUERY && len
        == 0 {
        Ok(None)
    } else if header[0] == PRESENCE_RESPONSE_REJECTED {
        Err(NetworkError::PresenceRejected)
    } else {
        Err(NetworkError::ProtocolViolation("invalid presence response"))
    }
}

/// Reads the header of a presence response.
pub fn read_presence_response(header: &[u8; 13], operation: u8) -> (reply: Result<
    Option<usize>,
    NetworkError,
>)
    ensures
        reply == reply_verdict(header@, operation),
{
    let len: usize = read_u32(header.as_slice(), 9) as usize;
    if len > MAX_PRESENCE_RECORD_BYTES {
        return Err(NetworkError::ProtocolViolation("presence response exceeds limit"));
    }
    if header[0] == PRESENCE_RESPONSE_OK {
        if operation == PRESENCE_OP_PUBLISH && len != 0 {
            return Err(NetworkError::ProtocolViolation("presence publish response has a payload"));
        }
        return Ok(Some(len));
    }
    if header[0] == PRESENCE_RESPONSE_NOT_FOUND && operation == PRESENCE_OP_QUERY && len == 0 {
        return Ok(None);
    }
    if header[0] == PRESENCE_RESPONSE_REJECTED {
        return Err(NetworkError::PresenceRejected);
    }
    Err(NetworkError::ProtocolViolation("invalid presence response"))
}

/// Reads the record in a response, which must be the one that was asked for.
pub fn read_presence_record(bytes: &[u8], epoch: u64, opaque_key: [u8; 24]) -> (record: Result<
    EncryptedPresenceRecord,
    NetworkError,
>)
    ensures
        match sealed::read_sealed(bytes@) {
            Err(reason) => record matches Err(error) && error == NetworkError::Presence(reason),
            Ok(s) => if s.epoch != epoch || s.opaque_key != opaque_key {
                record matches Err(error) && error == NetworkError::ProtocolViolation(
                    "presence response key does not match request",
                )
            } else {
                record matches Ok(record) && record@ == s
            },
        },
        match record_asked_for(bytes@, epoch, opaque_key) {
            Err(reason) => record matches Err(error) && error == reason,
            Ok(s) => record matches Ok(record) && record@ == s,
        },
{
    match EncryptedPresenceRecord::from_bytes(bytes) {
        Err(error) => Err(NetworkError::Presence(error)),
        Ok(record) => if record.epoch != epoch || !arrays_equal(&record.opaque_key, &opaque_key) {
            Err(NetworkError::ProtocolViolation("presence response key does not match request"))
        } else {
            Ok(record)
        },
    }
}

/// A requester understands what a service reports: that a record was found and how long it is,
/// that one was published, that there is none, or that the request was turned down.
pub proof fn law_presence_response_is_understood(now_ms: u64, body_len: u32)
    requires
        body_len <= MAX_PRESENCE_RECORD_BYTES,
    ensures
        reply_verdict(
            presence_response_bytes(presence_status(StoreOutcome::Found), now_ms, body_len as nat),
            PRESENCE_OP_QUERY,
        ) == Ok::<Option<usize>, NetworkError>(Some(body_len as usize)),
        reply_verdict(
            presence_response_bytes(presence_status(StoreOutcome::Published), now_ms, 0),
            PRESENCE_OP_PUBLISH,
        ) == Ok::<Option<usize>, NetworkError>(Some(0)),
        reply_verdict(
            presence_response_bytes(presence_status(StoreOutcome::Missing), now_ms, 0),
            PRESENCE_OP_QUERY,
        ) == Ok::<Option<usize>, NetworkError>(None),
        reply_verdict(
            presence_response_bytes(presence_status(StoreOutcome::Failed), now_ms, 0),
            PRESENCE_OP_QUERY,
        ) == Err::<Option<usize>, NetworkError>(NetworkError::PresenceRejected),
        reply_verdict(
            presence_response_bytes(presence_status(StoreOutcome::Failed), now_ms, 0),
            PRESENCE_OP_PUBLISH,
        ) == Err::<Option<usize>, NetworkError>(NetworkError::PresenceRejected),
{
    lemma_response_fields(presence_status(StoreOutcome::Found), now_ms, body_len);
    lemma_response_fields(presence_status(StoreOutcome::Published), now_ms, 0);
    lemma_response_fields(presence_status(StoreOutcome::Missing), now_ms, 0);
    lemma_response_fields(presence_status(StoreOutcome::Failed), now_ms, 0);
}

proof fn lemma_response_fields(status: u8, now_ms: u64, body_len: u32)
    ensures
        presence_response_bytes(status, now_ms, body_len as nat)[0] == status,
        wire::u32_at(presence_response_bytes(status, now_ms, body_len as nat), 9) == body_len,
{
    let b = presence_response_bytes(status, now_ms, body_len as nat);
    wire::lemma_pow256_values();
    wire::lemma_be_len(now_ms as nat, 8);
    wire::lemma_be_len(body_len as nat, 4);
    wire::lemma_from_be_of_be(body_len as nat, 4);
    assert(b.subrange(9, 13) =~= wire::be(body_len as nat, 4));
}

/// The head from which someone of the network asks for configurations.
pub open spec fn head_asked_from(request: Option<Seq<u8>>, network: NetworkId) -> Option<ConfigHead> {
    match request {
        None => None,
        Some(bytes) => match read_config_sync(bytes) {
            Some((asked, head)) => if asked == network {
                Some(head)
            } else {
                None
            },
            None => None,
        },
    }
}

/// How long the updates are that follow the header of a response.
pub open spec fn sync_len(header: Seq<u8>) -> Result<usize, NetworkError> {
    if header[0] != CONFIG_SYNC_RESPONSE_OK {
        Err(NetworkError::ConfigSyncRejected)
    } else if wire::u32_at(header, 1) > MAX_CONFIG_SYNC_RESPONSE {
        Err(NetworkError::ProtocolViolation("config sync response exceeds limit"))
    } else {
        Ok(wire::u32_at(header, 1) as usize)
    }
}

/// What some bytes are taken as that come for an epoch and a key.
pub open spec fn record_asked_for(bytes: Seq<u8>, epoch: u64, opaque_key: [u8; 24]) -> Result<
    sealed::SealedPresence,
    NetworkError,
> {
    match sealed::read_sealed(bytes) {
        Err(reason) => Err(NetworkError::Presence(reason)),
        Ok(s) => if s.epoch != epoch || s.opaque_key != opaque_key {
            Err(NetworkError::ProtocolViolation("presence response key does not match request"))
        } else {
            Ok(s)
        },
    }
}

/// Who asks for configurations of a network is served from the head that was sent, whatever head
/// that is; who asks for those of another network is not served.
pub proof fn law_who_asks_is_served_from_its_head(
    asked: NetworkId,
    head: ConfigHead,
    network: NetworkId,
)
    ensures
        asked == network ==> head_asked_from(Some(config_sync_bytes(asked, head)), network) == Some(
            head,
        ),
        asked != network ==> head_asked_from(Some(config_sync_bytes(asked, head)), network) is None,
        head_asked_from(None, network) is None,
{
    law_config_sync_request_round_trip(asked, head);
}

/// Updates are read exactly where the response is no refusal and they are not too long: as many
/// bytes as the response says.
pub proof fn law_how_much_is_read(header: Seq<u8>, n: usize)
    requires
        header.len() == 5,
    ensures
        sync_len(header) == Ok::<usize, NetworkError>(n) <==> header[0] == 0 && wire::u32_at(header, 1)
            == n && n <= 16777216,
        sync_len(header) == Err::<usize, NetworkError>(NetworkError::ConfigSyncRejected) <==> header[0]
            != 0,
{
}

/// A record is taken exactly where it can be read and is of the epoch and under the key that were
/// asked for.
pub proof fn law_which_records_are_taken(
    bytes: Seq<u8>,
    epoch: u64,
    opaque_key: [u8; 24],
    s: sealed::SealedPresence,
)
    ensures
        record_asked_for(bytes, epoch, opaque_key) == Ok::<sealed::SealedPresence, NetworkError>(s)
            <==> sealed::read_sealed(bytes) == Ok::<sealed::SealedPresence, DiscoveryError>(s)
            && s.epoch == epoch && s.opaque_key == opaque_key,
{
}

/// Who asks for configurations is refused exactly where there are no updates, or none that can be
/// sent; otherwise the reply says that all is well, how long the updates are, and holds them.
pub proof fn law_when_a_sync_request_is_refused(
    network: NetworkId,
    head: ConfigHead,
    updates: Option<chain::Batch>,
)
    ensures
        ({
            let reply = config_sync_reply(network, head, updates);
            let sent = updates matches Some(b) && b.network_id == network && b.base_head == head
                && chain::batch_verdict(b) is Ok && chain::batch_bytes(b).len() <= 16777216;
            &&& sync_len(reply.subrange(0, 5)) is Ok <==> sent
            &&& reply[0] == 0 <==> sent
            &&& sent ==> reply.len() == 5 + chain::batch_bytes(updates->Some_0).len()
                && reply.subrange(5, reply.len() as int) == chain::batch_bytes(updates->Some_0)
            &&& !sent ==> reply.len() == 5
        }),
{
    let reply = config_sync_reply(network, head, updates);
    match updates {
        Some(b) => {
            let bytes = chain::batch_bytes(b);
            wire::lemma_pow256_values();
            wire::lemma_be_len(bytes.len(), 4);
            if b.network_id == network && b.base_head == head && chain::batch_verdict(b) is Ok
                && bytes.len() <= 16777216 {
                wire::lemma_from_be_of_be(bytes.len(), 4);
                assert(reply.subrange(0, 5).subrange(1, 5) =~= wire::be(bytes.len(), 4));
                assert(reply.subrange(5, reply.len() as int) =~= bytes);
            }
        },
        None => {},
    }
}

} // verus!
