//! Presence records: where an endpoint is and which virtual addresses it serves.
use crate::crypto::keys::CertificateError;
use crate::discovery::address;
use crate::discovery::address::{IpAddress, SocketAddress};
use crate::identifiers::{AppAddr, DeviceId, EndpointId, MemberId, NetworkId, ScopedVirtualAddr};
use crate::outside;
use crate::outside::{endpoint_id_ok, utf8_text};
use crate::wire;
use crate::wire::{
    copy_range, push_be, push_bytes, read_array, read_u16, read_u32, read_u64, starts_at,
};
use vstd::prelude::*;

verus! {

pub const DEFAULT_PRESENCE_TTL_MS: u64 = 120000;

pub const MAX_PRESENCE_TTL_MS: u64 = 300000;

/// The first bytes of a presence payload.
pub const PRESENCE_PAYLOAD_MAGIC: [u8; 8] = [87, 86, 82, 80, 82, 80, 0, 2];

pub const MAX_CANDIDATES: usize = 16;

pub const MAX_VIRTUAL_ADDRS: usize = 256;

pub const MAX_RELAY_URL_LEN: usize = 2048;

pub const MAX_PRESENCE_WIRE: usize = 16384;

/// The longest payload that leaves room for its signature.
pub const MAX_PRESENCE_PAYLOAD: usize = 16320;

/// Why something that was discovered is refused.
#[derive(Clone, Copy, Debug, PartialEq, Eq)]
pub enum DiscoveryError {
    RandomnessUnavailable,
    MalformedTag,
    MalformedEndpoint,
    MalformedWire,
    PresenceTooLarge,
    InvalidPresence,
    WrongEpoch,
    WrongNetwork,
    EncryptionFailed,
    DecryptionFailed,
    Rollback,
    NotAuthorized,
    Crypto(CertificateError),
}

impl DiscoveryError {
    /// The message for people.
    pub open spec fn text(self) -> Seq<char> {
        match self {
            DiscoveryError::RandomnessUnavailable => "secure randomness is unavailable"@,
            DiscoveryError::MalformedTag => "LAN discovery tag is malformed"@,
            DiscoveryError::MalformedEndpoint => "discovery endpoint ID is malformed"@,
            DiscoveryError::MalformedWire => "presence wire encoding is malformed"@,
            DiscoveryError::PresenceTooLarge => "presence record exceeds protocol limits"@,
            DiscoveryError::InvalidPresence => "presence record is invalid or expired"@,
            DiscoveryError::WrongEpoch => "presence record belongs to another key epoch"@,
            DiscoveryError::WrongNetwork => "presence record belongs to another virtual network"@,
            DiscoveryError::EncryptionFailed => "presence encryption failed"@,
            DiscoveryError::DecryptionFailed => "presence decryption or authentication failed"@,
            DiscoveryError::Rollback => "presence sequence would roll back or fork cached state"@,
            DiscoveryError::NotAuthorized => {
                "member, endpoint or virtual address is not authorized by current config"@
            },
            DiscoveryError::Crypto(error) => error.text(),
        }
    }

    /// The message for people.
    pub fn message(&self) -> (text: String)
        ensures
            text@ == self.text(),
    {
        match self {
            DiscoveryError::RandomnessUnavailable => "secure randomness is unavailable".to_owned(),
            DiscoveryError::MalformedTag => "LAN discovery tag is malformed".to_owned(),
            DiscoveryError::MalformedEndpoint => "discovery endpoint ID is malformed".to_owned(),
            DiscoveryError::MalformedWire => "presence wire encoding is malformed".to_owned(),
            DiscoveryError::PresenceTooLarge => {
                "presence record exceeds protocol limits".to_owned()
            },
            DiscoveryError::InvalidPresence => "presence record is invalid or expired".to_owned(),
            DiscoveryError::WrongEpoch => "presence record belongs to another key epoch".to_owned(),
            DiscoveryError::WrongNetwork => {
                "presence record belongs to another virtual network".to_owned()
            },
            DiscoveryError::EncryptionFailed => "presence encryption failed".to_owned(),
            DiscoveryError::DecryptionFailed => {
                "presence decryption or authentication failed".to_owned()
            },
            DiscoveryError::Rollback => {
                "presence sequence would roll back or fork cached state".to_owned()
            },
            DiscoveryError::NotAuthorized => {
                "member, endpoint or virtual address is not authorized by current config".to_owned()
            },
            DiscoveryError::Crypto(error) => error.message().to_owned(),
        }
    }
}

/// A way to reach an endpoint.
#[derive(Debug, PartialEq, Eq)]
pub enum DiscoveryCandidate {
    Ip(SocketAddress),
    Relay(String),
}

/// The contents of a candidate.
pub enum Candidate {
    Ip(SocketAddress),
    Relay(Seq<char>),
}

impl View for DiscoveryCandidate {
    type V = Candidate;

    open spec fn view(&self) -> Candidate {
        match self {
            DiscoveryCandidate::Ip(address) => Candidate::Ip(*address),
            DiscoveryCandidate::Relay(url) => Candidate::Relay(url@),
        }
    }
}

impl Clone for DiscoveryCandidate {
    fn clone(&self) -> (copy: Self)
        ensures
            copy@ == self@,
    {
        match self {
            DiscoveryCandidate::Ip(address) => DiscoveryCandidate::Ip(*address),
            DiscoveryCandidate::Relay(url) => DiscoveryCandidate::Relay(url.clone()),
        }
    }
}

/// Where an endpoint is, which virtual addresses it serves, and for how long.
#[derive(Debug, PartialEq, Eq)]
pub struct PresenceRecord {
    pub network_id: NetworkId,
    pub epoch: u64,
    pub virtual_addrs: Vec<ScopedVirtualAddr>,
    pub member_id: MemberId,
    pub endpoint_id: EndpointId,
    pub candidates: Vec<DiscoveryCandidate>,
    pub capabilities: u32,
    pub sequence: u64,
    pub issued_at_ms: u64,
    pub expires_at_ms: u64,
}

/// The contents of a presence record.
pub struct Presence {
    pub network_id: NetworkId,
    pub epoch: u64,
    pub virtual_addrs: Seq<ScopedVirtualAddr>,
    pub member_id: MemberId,
    pub endpoint_id: EndpointId,
    pub candidates: Seq<Candidate>,
    pub capabilities: u32,
    pub sequence: u64,
    pub issued_at_ms: u64,
    pub expires_at_ms: u64,
}

/// The contents of each of several candidates.
pub open spec fn candidate_views(s: Seq<DiscoveryCandidate>) -> Seq<Candidate> {
    Seq::new(s.len(), |i: int| s[i]@)
}

impl View for PresenceRecord {
    type V = Presence;

    open spec fn view(&self) -> Presence {
        Presence {
            network_id: self.network_id,
            epoch: self.epoch,
            virtual_addrs: self.virtual_addrs@,
            member_id: self.member_id,
            endpoint_id: self.endpoint_id,
            candidates: candidate_views(self.candidates@),
            capabilities: self.capabilities,
            sequence: self.sequence,
            issued_at_ms: self.issued_at_ms,
            expires_at_ms: self.expires_at_ms,
        }
    }
}

impl Clone for PresenceRecord {
    fn clone(&self) -> (copy: Self)
        ensures
            copy@ == self@,
    {
        let copy = PresenceRecord {
            network_id: self.network_id,
            epoch: self.epoch,
            virtual_addrs: self.virtual_addrs.clone(),
            member_id: self.member_id,
            endpoint_id: self.endpoint_id,
            candidates: self.candidates.clone(),
            capabilities: self.capabilities,
            sequence: self.sequence,
            issued_at_ms: self.issued_at_ms,
            expires_at_ms: self.expires_at_ms,
        };
        proof {
            assert(copy.virtual_addrs@ =~= self.virtual_addrs@);
            assert forall|i: int| 0 <= i < self.candidates@.len() implies
                candidate_views(copy.candidates@)[i] == candidate_views(self.candidates@)[i] by {
                assert(cloned(self.candidates@[i], copy.candidates@[i]));
            }
            assert(candidate_views(copy.candidates@) =~= candidate_views(self.candidates@));
        }
        copy
    }
}

/// Whether two candidates are the same.
fn same_candidate(a: &DiscoveryCandidate, b: &DiscoveryCandidate) -> (same: bool)
    ensures
        same == (a@ == b@),
{
    match (a, b) {
        (DiscoveryCandidate::Ip(x), DiscoveryCandidate::Ip(y)) => *x == *y,
        (DiscoveryCandidate::Relay(x), DiscoveryCandidate::Relay(y)) => *x == *y,
        _ => false,
    }
}

impl PresenceRecord {
    /// Whether two records are the same.
    pub fn same(&self, other: &PresenceRecord) -> (same: bool)
        ensures
            same == (self@ == other@),
    {
        if self.network_id != other.network_id || self.epoch != other.epoch || self.member_id
            != other.member_id || self.endpoint_id != other.endpoint_id || self.capabilities
            != other.capabilities || self.sequence != other.sequence || self.issued_at_ms
            != other.issued_at_ms || self.expires_at_ms != other.expires_at_ms {
            return false;
        }
        if self.virtual_addrs.len() != other.virtual_addrs.len() || self.candidates.len()
            != other.candidates.len() {
            assert(self@.virtual_addrs.len() != other@.virtual_addrs.len()
                || self@.candidates.len() != other@.candidates.len());
            return false;
        }
        let mut i: usize = 0;
        while i < self.virtual_addrs.len()
            invariant
                i <= self.virtual_addrs.len() == other.virtual_addrs.len(),
                forall|j: int| 0 <= j < i ==> self.virtual_addrs@[j] == other.virtual_addrs@[j],
            decreases self.virtual_addrs.len() - i,
        {
            if self.virtual_addrs[i] != other.virtual_addrs[i] {
                assert(self@.virtual_addrs[i as int] != other@.virtual_addrs[i as int]);
                return false;
            }
            i = i + 1;
        }
        let mut k: usize = 0;
        while k < self.candidates.len()
            invariant
                k <= self.candidates.len() == other.candidates.len(),
                forall|j: int| 0 <= j < k ==> self@.candidates[j] == other@.candidates[j],
            decreases self.candidates.len() - k,
        {
            if !same_candidate(&self.candidates[k], &other.candidates[k]) {
                assert(self@.candidates[k as int] != other@.candidates[k as int]);
                return false;
            }
            k = k + 1;
        }
        assert(self@.virtual_addrs =~= other@.virtual_addrs);
        assert(self@.candidates =~= other@.candidates);
        true
    }
}

/// The encoding of a virtual address: which side, the application, and the device of a client.
pub open spec fn addr_bytes(a: ScopedVirtualAddr) -> Seq<u8> {
    match a {
        ScopedVirtualAddr::Server { app } => seq![1u8] + app@,
        ScopedVirtualAddr::Client { app, device } => seq![2u8] + (app@ + device@),
    }
}

/// The encoding of a candidate: what it is, and its parts. The flow label and the scope of an IP
/// address are not written.
pub open spec fn candidate_bytes(c: Candidate) -> Seq<u8> {
    match c {
        Candidate::Ip(address) => match address {
            SocketAddress::V4 { octets, port } => seq![1u8] + (octets@ + wire::be(port as nat, 2)),
            SocketAddress::V6 { octets, port, .. } => seq![2u8] + (octets@ + wire::be(
                port as nat,
                2,
            )),
        },
        Candidate::Relay(url) => seq![3u8] + (wire::be(wire::utf8(url).len(), 2) + wire::utf8(url)),
    }
}

/// How virtual addresses are written.
pub open spec fn addr_enc() -> spec_fn(ScopedVirtualAddr) -> Seq<u8> {
    |a: ScopedVirtualAddr| addr_bytes(a)
}

/// How candidates are written.
pub open spec fn candidate_enc() -> spec_fn(Candidate) -> Seq<u8> {
    |c: Candidate| candidate_bytes(c)
}

/// The candidates behind their number.
pub open spec fn candidates_bytes(r: Presence) -> Seq<u8> {
    wire::be(r.candidates.len(), 2) + wire::items_bytes(candidate_enc(), r.candidates)
}

/// What stands between the virtual addresses and the candidates.
pub open spec fn middle_bytes(r: Presence) -> Seq<u8> {
    r.member_id@ + r.endpoint_id@ + wire::be(r.capabilities as nat, 4) + wire::be(
        r.sequence as nat,
        8,
    ) + wire::be(r.issued_at_ms as nat, 8) + wire::be(r.expires_at_ms as nat, 8)
}

/// What stands before the virtual addresses.
pub open spec fn front_bytes(r: Presence) -> Seq<u8> {
    PRESENCE_PAYLOAD_MAGIC@ + r.network_id@ + wire::be(r.epoch as nat, 8) + wire::be(
        r.virtual_addrs.len(),
        2,
    )
}

/// The encoding of a presence record: its fields in order, numbers big-endian.
pub open spec fn payload_bytes(r: Presence) -> Seq<u8> {
    front_bytes(r) + (wire::items_bytes(addr_enc(), r.virtual_addrs) + (middle_bytes(r)
        + candidates_bytes(r)))
}

/// Whether every length in a record fits its field and the whole is not too long.
pub open spec fn payload_fits(r: Presence) -> bool {
    &&& r.virtual_addrs.len() <= u16::MAX
    &&& r.candidates.len() <= u16::MAX
    &&& forall|i: int|
        0 <= i < r.candidates.len() ==> ((#[trigger] r.candidates[i]) matches Candidate::Relay(url)
            ==> wire::utf8(url).len() <= u16::MAX)
    &&& payload_bytes(r).len() <= MAX_PRESENCE_PAYLOAD
}

/// A virtual address.
pub open spec fn p_addr(r: Seq<u8>) -> Result<(ScopedVirtualAddr, Seq<u8>), DiscoveryError> {
    if r.len() < 33 {
        Err(DiscoveryError::MalformedWire)
    } else if r[0] == 1 {
        Ok(
            (
                ScopedVirtualAddr::Server { app: AppAddr(wire::array_at(r, 1)) },
                r.subrange(33, r.len() as int),
            ),
        )
    } else if r[0] == 2 && r.len() >= 65 {
        Ok(
            (
                ScopedVirtualAddr::Client {
                    app: AppAddr(wire::array_at(r, 1)),
                    device: DeviceId(wire::array_at(r, 33)),
                },
                r.subrange(65, r.len() as int),
            ),
        )
    } else {
        Err(DiscoveryError::MalformedWire)
    }
}

/// A candidate.
pub open spec fn p_candidate(r: Seq<u8>) -> Result<(Candidate, Seq<u8>), DiscoveryError> {
    if r.len() >= 7 && r[0] == 1 {
        Ok(
            (
                Candidate::Ip(
                    SocketAddress::V4 { octets: wire::array_at(r, 1), port: wire::u16_at(r, 5) },
                ),
                r.subrange(7, r.len() as int),
            ),
        )
    } else if r.len() >= 19 && r[0] == 2 {
        Ok(
            (
                Candidate::Ip(
                    SocketAddress::V6 {
                        octets: wire::array_at(r, 1),
                        port: wire::u16_at(r, 17),
                        flow_info: 0,
                        scope_id: 0,
                    },
                ),
                r.subrange(19, r.len() as int),
            ),
        )
    } else if r.len() >= 3 && r[0] == 3 && wire::u16_at(r, 1) + 3 <= r.len() {
        let end = wire::u16_at(r, 1) + 3;
        let text = r.subrange(3, end);
        if vstd::utf8::valid_utf8(text) {
            Ok((Candidate::Relay(vstd::utf8::decode_utf8(text)), r.subrange(end, r.len() as int)))
        } else {
            Err(DiscoveryError::MalformedWire)
        }
    } else {
        Err(DiscoveryError::MalformedWire)
    }
}

/// How virtual addresses are read.
pub open spec fn addr_dec() -> spec_fn(Seq<u8>) -> Result<
    (ScopedVirtualAddr, Seq<u8>),
    DiscoveryError,
> {
    |r: Seq<u8>| p_addr(r)
}

/// How candidates are read.
pub open spec fn candidate_dec() -> spec_fn(Seq<u8>) -> Result<(Candidate, Seq<u8>), DiscoveryError> {
    |r: Seq<u8>| p_candidate(r)
}

/// The length of what stands before the virtual addresses.
pub const PRESENCE_FRONT_LEN: usize = 50;

/// The length of what stands between the virtual addresses and the candidates.
pub const PRESENCE_MIDDLE_LEN: usize = 92;

/// What follows the virtual addresses.
pub open spec fn p_rest(
    r: Seq<u8>,
    network_id: NetworkId,
    epoch: u64,
    virtual_addrs: Seq<ScopedVirtualAddr>,
) -> Result<Presence, DiscoveryError> {
    if r.len() < 64 {
        Err(DiscoveryError::MalformedWire)
    } else if !outside::endpoint_key_ok(r.subrange(32, 64)) {
        Err(DiscoveryError::MalformedEndpoint)
    } else if r.len() < PRESENCE_MIDDLE_LEN + 2 {
        Err(DiscoveryError::MalformedWire)
    } else if wire::u16_at(r, 92) > MAX_CANDIDATES {
        Err(DiscoveryError::InvalidPresence)
    } else {
        match wire::p_items(
            candidate_dec(),
            r.subrange(94, r.len() as int),
            wire::u16_at(r, 92) as nat,
        ) {
            Err(e) => Err(e),
            Ok((candidates, rest)) => if rest.len() != 0 {
                Err(DiscoveryError::MalformedWire)
            } else {
                Ok(
                    Presence {
                        network_id,
                        epoch,
                        virtual_addrs,
                        member_id: MemberId(wire::array_at(r, 0)),
                        endpoint_id: EndpointId(wire::array_at(r, 32)),
                        candidates,
                        capabilities: wire::u32_at(r, 64),
                        sequence: wire::u64_at(r, 68),
                        issued_at_ms: wire::u64_at(r, 76),
                        expires_at_ms: wire::u64_at(r, 84),
                    },
                )
            },
        }
    }
}

/// The record whose encoding is `b`, or why there is none: broken bytes, a number of addresses or
/// candidates that no record has, or an endpoint that is no key.
pub open spec fn read_payload(b: Seq<u8>) -> Result<Presence, DiscoveryError> {
    if b.len() < PRESENCE_FRONT_LEN || !wire::has_at(b, 0, PRESENCE_PAYLOAD_MAGIC@) {
        Err(DiscoveryError::MalformedWire)
    } else if wire::u16_at(b, 48) == 0 || wire::u16_at(b, 48) > MAX_VIRTUAL_ADDRS {
        Err(DiscoveryError::InvalidPresence)
    } else {
        match wire::p_items(
            addr_dec(),
            b.subrange(PRESENCE_FRONT_LEN as int, b.len() as int),
            wire::u16_at(b, 48) as nat,
        ) {
            Err(e) => Err(e),
            Ok((virtual_addrs, r)) => p_rest(
                r,
                NetworkId(wire::array_at(b, 8)),
                wire::u64_at(b, 40),
                virtual_addrs,
            ),
        }
    }
}

/// Whether a candidate can be written.
pub open spec fn candidate_ok(c: Candidate) -> bool {
    c matches Candidate::Relay(url) ==> 0 < wire::utf8(url).len() <= MAX_RELAY_URL_LEN
}

/// Whether a record keeps to the bounds and names an endpoint that is a key.
pub open spec fn record_ok(r: Presence) -> bool {
    &&& 0 < r.virtual_addrs.len() <= MAX_VIRTUAL_ADDRS
    &&& r.candidates.len() <= MAX_CANDIDATES
    &&& forall|i: int| 0 <= i < r.candidates.len() ==> candidate_ok(#[trigger] r.candidates[i])
    &&& outside::endpoint_key_ok(r.endpoint_id@)
}

proof fn lemma_addr_round_trip(a: ScopedVirtualAddr, rest: Seq<u8>)
    ensures
        p_addr(addr_bytes(a) + rest) == Ok::<(ScopedVirtualAddr, Seq<u8>), DiscoveryError>(
            (a, rest),
        ),
{
    let r = addr_bytes(a) + rest;
    match a {
        ScopedVirtualAddr::Server { app } => {
            wire::lemma_array_of(app.0);
            assert(r.subrange(1, 33) =~= app@);
            assert(r.subrange(33, r.len() as int) =~= rest);
        },
        ScopedVirtualAddr::Client { app, device } => {
            wire::lemma_array_of(app.0);
            wire::lemma_array_of(device.0);
            assert(r.subrange(1, 33) =~= app@);
            assert(r.subrange(33, 65) =~= device@);
            assert(r.subrange(65, r.len() as int) =~= rest);
        },
    }
}

/// What is read of a candidate that was written: its IP address has no flow label and no scope.
pub open spec fn plain_candidate(c: Candidate) -> Candidate {
    match c {
        Candidate::Ip(address) => Candidate::Ip(
            address::socket(address::ip_of(address), address::port_of(address)),
        ),
        Candidate::Relay(url) => Candidate::Relay(url),
    }
}

/// What is read of a record that was written: the IP addresses of its candidates have no flow
/// label and no scope.
pub open spec fn plain_record(r: Presence) -> Presence {
    Presence { candidates: r.candidates.map_values(|c: Candidate| plain_candidate(c)), ..r }
}

proof fn lemma_candidate_round_trip(c: Candidate, rest: Seq<u8>)
    requires
        candidate_ok(c),
        c == plain_candidate(c),
    ensures
        p_candidate(candidate_bytes(c) + rest) == Ok::<(Candidate, Seq<u8>), DiscoveryError>(
            (c, rest),
        ),
{
    let r = candidate_bytes(c) + rest;
    wire::lemma_pow256_values();
    match c {
        Candidate::Ip(address) => {
            let port = address::port_of(address);
            wire::lemma_from_be_of_be(port as nat, 2);
            wire::lemma_be_len(port as nat, 2);
            match address {
                SocketAddress::V4 { octets, .. } => {
                    wire::lemma_array_of(octets);
                    assert(r.subrange(1, 5) =~= octets@);
                    assert(r.subrange(5, 7) =~= wire::be(port as nat, 2));
                    assert(r.subrange(7, r.len() as int) =~= rest);
                },
                SocketAddress::V6 { octets, .. } => {
                    wire::lemma_array_of(octets);
                    assert(r.subrange(1, 17) =~= octets@);
                    assert(r.subrange(17, 19) =~= wire::be(port as nat, 2));
                    assert(r.subrange(19, r.len() as int) =~= rest);
                },
            }
        },
        Candidate::Relay(url) => {
            let text = wire::utf8(url);
            wire::lemma_from_be_of_be(text.len(), 2);
            wire::lemma_be_len(text.len(), 2);
            assert(r.subrange(1, 3) =~= wire::be(text.len(), 2));
            assert(r.subrange(3, 3 + text.len() as int) =~= text);
            assert(r.subrange(3 + text.len() as int, r.len() as int) =~= rest);
            vstd::utf8::encode_utf8_valid_utf8(url);
            vstd::utf8::encode_utf8_decode_utf8(url);
        },
    }
}

/// A record that keeps to the bounds is read back from its encoding unchanged, but for the flow
/// labels and scopes of IP addresses, which are not written.
pub proof fn law_payload_round_trip(r: Presence)
    requires
        record_ok(r),
    ensures
        read_payload(payload_bytes(r)) == Ok::<Presence, DiscoveryError>(plain_record(r)),
        (forall|i: int|
            0 <= i < r.candidates.len() ==> plain_candidate(#[trigger] r.candidates[i])
                == r.candidates[i]) ==> plain_record(r) == r,
{
    let p = plain_record(r);
    assert forall|i: int| 0 <= i < p.candidates.len() implies candidate_ok(
        #[trigger] p.candidates[i],
    ) && p.candidates[i] == plain_candidate(p.candidates[i]) by {
        assert(candidate_ok(r.candidates[i]));
    }
    lemma_same_items(r.candidates, p.candidates);
    assert(candidates_bytes(r) == candidates_bytes(p));
    assert(payload_bytes(r) == payload_bytes(p));
    lemma_plain_round_trip(p);
    if forall|i: int|
        0 <= i < r.candidates.len() ==> plain_candidate(#[trigger] r.candidates[i])
            == r.candidates[i] {
        assert(p.candidates =~= r.candidates);
    }
}

/// Candidates that differ only in what is not written have one encoding.
proof fn lemma_same_items(s: Seq<Candidate>, t: Seq<Candidate>)
    requires
        s.len() == t.len(),
        forall|i: int| 0 <= i < s.len() ==> t[i] == plain_candidate(#[trigger] s[i]),
    ensures
        wire::items_bytes(candidate_enc(), s) == wire::items_bytes(candidate_enc(), t),
    decreases s.len(),
{
    if s.len() > 0 {
        assert forall|i: int| 0 <= i < s.drop_last().len() implies t.drop_last()[i]
            == plain_candidate(#[trigger] s.drop_last()[i]) by {
            assert(s.drop_last()[i] == s[i]);
        }
        lemma_same_items(s.drop_last(), t.drop_last());
        assert(s.last() == s[s.len() - 1]);
        assert(t.last() == t[t.len() - 1]);
        assert(candidate_bytes(s.last()) == candidate_bytes(t.last()));
    }
}

proof fn lemma_plain_round_trip(r: Presence)
    requires
        record_ok(r),
        forall|i: int|
            0 <= i < r.candidates.len() ==> (#[trigger] r.candidates[i]) == plain_candidate(
                r.candidates[i],
            ),
    ensures
        read_payload(payload_bytes(r)) == Ok::<Presence, DiscoveryError>(r),
{
    let b = payload_bytes(r);
    let addrs = wire::items_bytes(addr_enc(), r.virtual_addrs);
    let tail = middle_bytes(r) + candidates_bytes(r);
    let n = r.virtual_addrs.len();
    wire::lemma_pow256_values();
    wire::lemma_be_len(r.epoch as nat, 8);
    wire::lemma_be_len(n, 2);
    wire::lemma_from_be_of_be(r.epoch as nat, 8);
    wire::lemma_from_be_of_be(n, 2);
    wire::lemma_array_of(r.network_id.0);
    assert(b.subrange(0, 8) =~= PRESENCE_PAYLOAD_MAGIC@);
    assert(b.subrange(8, 40) =~= r.network_id@);
    assert(b.subrange(40, 48) =~= wire::be(r.epoch as nat, 8));
    assert(b.subrange(48, 50) =~= wire::be(n, 2));
    assert(b.subrange(50, b.len() as int) =~= addrs + tail);
    let s = r.virtual_addrs;
    assert forall|i: int, t: Seq<u8>| 0 <= i < s.len() implies addr_dec()(
        #[trigger] (addr_enc()(s[i]) + t),
    ) == Ok::<(ScopedVirtualAddr, Seq<u8>), DiscoveryError>((s[i], t)) by {
        lemma_addr_round_trip(s[i], t);
    }
    wire::lemma_items_round_trip(addr_enc(), addr_dec(), s, tail);
    lemma_rest_round_trip(r);
}

proof fn lemma_addr_canonical(r: Seq<u8>)
    ensures
        p_addr(r) matches Ok((a, rest)) ==> r == addr_bytes(a) + rest,
{
    if p_addr(r) is Ok {
        let (a, rest) = p_addr(r)->Ok_0;
        wire::lemma_array_exists::<32>(r.subrange(1, 33));
        if r[0] == 1 {
            assert(r =~= (seq![1u8] + r.subrange(1, 33)) + rest);
        } else {
            wire::lemma_array_exists::<32>(r.subrange(33, 65));
            assert(r =~= (seq![2u8] + (r.subrange(1, 33) + r.subrange(33, 65))) + rest);
        }
    }
}

proof fn lemma_candidate_canonical(r: Seq<u8>)
    ensures
        p_candidate(r) matches Ok((c, rest)) ==> r == candidate_bytes(c) + rest,
{
    if p_candidate(r) is Ok {
        let (c, rest) = p_candidate(r)->Ok_0;
        wire::lemma_pow256_values();
        if r[0] == 1 {
            wire::lemma_array_exists::<4>(r.subrange(1, 5));
            wire::lemma_be_of_from_be(r.subrange(5, 7));
            assert(r =~= (seq![1u8] + (r.subrange(1, 5) + r.subrange(5, 7))) + rest);
        } else if r[0] == 2 {
            wire::lemma_array_exists::<16>(r.subrange(1, 17));
            wire::lemma_be_of_from_be(r.subrange(17, 19));
            assert(r =~= (seq![2u8] + (r.subrange(1, 17) + r.subrange(17, 19))) + rest);
        } else {
            let end = wire::u16_at(r, 1) + 3;
            let text = r.subrange(3, end);
            wire::lemma_be_of_from_be(r.subrange(1, 3));
            vstd::utf8::decode_utf8_encode_utf8(text);
            assert(r =~= (seq![3u8] + (r.subrange(1, 3) + text)) + rest);
        }
    }
}

/// Only one sequence of bytes reads as a given record: its encoding.
pub proof fn law_payload_canonical(b: Seq<u8>)
    ensures
        read_payload(b) matches Ok(r) ==> payload_bytes(r) == b,
{
    if read_payload(b) is Ok {
        let r = read_payload(b)->Ok_0;
        wire::lemma_pow256_values();
        wire::lemma_array_exists::<32>(b.subrange(8, 40));
        wire::lemma_be_of_from_be(b.subrange(40, 48));
        wire::lemma_be_of_from_be(b.subrange(48, 50));
        let r0 = b.subrange(PRESENCE_FRONT_LEN as int, b.len() as int);
        let n = wire::u16_at(b, 48) as nat;
        let dec = addr_dec();
        assert forall|r: Seq<u8>| #[trigger] dec(r) is Ok implies r == addr_enc()(dec(r)->Ok_0.0)
            + dec(r)->Ok_0.1 by {
            lemma_addr_canonical(r);
        }
        wire::lemma_items_canonical(addr_enc(), dec, r0, n);
        let r1 = wire::p_items(dec, r0, n)->Ok_0.1;
        wire::lemma_array_exists::<32>(r1.subrange(0, 32));
        wire::lemma_array_exists::<32>(r1.subrange(32, 64));
        wire::lemma_be_of_from_be(r1.subrange(64, 68));
        wire::lemma_be_of_from_be(r1.subrange(68, 76));
        wire::lemma_be_of_from_be(r1.subrange(76, 84));
        wire::lemma_be_of_from_be(r1.subrange(84, 92));
        wire::lemma_be_of_from_be(r1.subrange(92, 94));
        let r2 = r1.subrange(94, r1.len() as int);
        let m = wire::u16_at(r1, 92) as nat;
        let dec = candidate_dec();
        assert forall|r: Seq<u8>| #[trigger] dec(r) is Ok implies r == candidate_enc()(
            dec(r)->Ok_0.0,
        ) + dec(r)->Ok_0.1 by {
            lemma_candidate_canonical(r);
        }
        wire::lemma_items_canonical(candidate_enc(), dec, r2, m);
        let items = wire::items_bytes(candidate_enc(), r.candidates);
        let end = wire::p_items(dec, r2, m)->Ok_0.1;
        assert(items + end =~= items);
        assert(middle_bytes(r) =~= r1.subrange(0, 92));
        assert(r1 =~= r1.subrange(0, 92) + (r1.subrange(92, 94) + r2));
        assert(b.subrange(0, 8) == PRESENCE_PAYLOAD_MAGIC@);
        assert(front_bytes(r) =~= b.subrange(0, 50));
        assert(b =~= b.subrange(0, 50) + r0);
    }
}

proof fn lemma_rest_round_trip(r: Presence)
    requires
        record_ok(r),
        forall|i: int|
            0 <= i < r.candidates.len() ==> (#[trigger] r.candidates[i]) == plain_candidate(
                r.candidates[i],
            ),
    ensures
        p_rest(
            middle_bytes(r) + candidates_bytes(r),
            r.network_id,
            r.epoch,
            r.virtual_addrs,
        ) == Ok::<Presence, DiscoveryError>(r),
{
    let t = middle_bytes(r) + candidates_bytes(r);
    let c = r.candidates;
    let items = wire::items_bytes(candidate_enc(), c);
    wire::lemma_pow256_values();
    wire::lemma_be_len(r.capabilities as nat, 4);
    wire::lemma_be_len(r.sequence as nat, 8);
    wire::lemma_be_len(r.issued_at_ms as nat, 8);
    wire::lemma_be_len(r.expires_at_ms as nat, 8);
    wire::lemma_be_len(c.len(), 2);
    wire::lemma_from_be_of_be(r.capabilities as nat, 4);
    wire::lemma_from_be_of_be(r.sequence as nat, 8);
    wire::lemma_from_be_of_be(r.issued_at_ms as nat, 8);
    wire::lemma_from_be_of_be(r.expires_at_ms as nat, 8);
    wire::lemma_from_be_of_be(c.len(), 2);
    wire::lemma_array_of(r.member_id.0);
    wire::lemma_array_of(r.endpoint_id.0);
    assert(t.subrange(0, 32) =~= r.member_id@);
    assert(t.subrange(32, 64) =~= r.endpoint_id@);
    assert(t.subrange(64, 68) =~= wire::be(r.capabilities as nat, 4));
    assert(t.subrange(68, 76) =~= wire::be(r.sequence as nat, 8));
    assert(t.subrange(76, 84) =~= wire::be(r.issued_at_ms as nat, 8));
    assert(t.subrange(84, 92) =~= wire::be(r.expires_at_ms as nat, 8));
    assert(t.subrange(92, 94) =~= wire::be(c.len(), 2));
    assert(t.subrange(94, t.len() as int) =~= items);
    assert forall|i: int, u: Seq<u8>| 0 <= i < c.len() implies candidate_dec()(
        #[trigger] (candidate_enc()(c[i]) + u),
    ) == Ok::<(Candidate, Seq<u8>), DiscoveryError>((c[i], u)) by {
        lemma_candidate_round_trip(c[i], u);
    }
    wire::lemma_items_round_trip(candidate_enc(), candidate_dec(), c, Seq::empty());
    assert(items + Seq::<u8>::empty() =~= items);
}

/// Whatever is read has as many virtual addresses and candidates as a record may have, and names
/// an endpoint that is a key.
pub proof fn lemma_read_payload_bounds(b: Seq<u8>)
    ensures
        read_payload(b) matches Ok(r) ==> 0 < r.virtual_addrs.len() <= MAX_VIRTUAL_ADDRS
            && r.candidates.len() <= MAX_CANDIDATES && outside::endpoint_key_ok(r.endpoint_id@),
{
    if let Ok(r) = read_payload(b) {
        let start = b.subrange(PRESENCE_FRONT_LEN as int, b.len() as int);
        let n = wire::u16_at(b, 48) as nat;
        wire::lemma_items_count(addr_dec(), start, n);
        let t = wire::p_items(addr_dec(), start, n)->Ok_0.1;
        wire::lemma_items_count(
            candidate_dec(),
            t.subrange(94, t.len() as int),
            wire::u16_at(t, 92) as nat,
        );
        wire::lemma_array_exists::<32>(t.subrange(32, 64));
    }
}

/// What follows a place in some bytes.
spec fn after(b: Seq<u8>, pos: int) -> Seq<u8> {
    b.subrange(pos, b.len() as int)
}

fn encode_virtual_addr(out: &mut Vec<u8>, address: ScopedVirtualAddr)
    ensures
        final(out)@ == old(out)@ + addr_bytes(address),
{
    let ghost before = out@;
    match address {
        ScopedVirtualAddr::Server { app } => {
            out.push(1);
            push_bytes(out, app.0.as_slice());
        },
        ScopedVirtualAddr::Client { app, device } => {
            out.push(2);
            push_bytes(out, app.0.as_slice());
            push_bytes(out, device.0.as_slice());
        },
    }
    assert(out@ =~= before + addr_bytes(address));
}

fn encode_candidate(out: &mut Vec<u8>, candidate: &DiscoveryCandidate) -> (fits: bool)
    ensures
        fits == (candidate@ matches Candidate::Relay(url) ==> wire::utf8(url).len() <= u16::MAX),
        fits ==> final(out)@ == old(out)@ + candidate_bytes(candidate@),
{
    let ghost before = out@;
    match candidate {
        DiscoveryCandidate::Ip(address) => {
            match address {
                SocketAddress::V4 { octets, port } => {
                    out.push(1);
                    push_bytes(out, octets.as_slice());
                    push_be(out, *port as u64, 2);
                },
                SocketAddress::V6 { octets, port, .. } => {
                    out.push(2);
                    push_bytes(out, octets.as_slice());
                    push_be(out, *port as u64, 2);
                },
            }
        },
        DiscoveryCandidate::Relay(url) => {
            let text: &[u8] = url.as_str().as_bytes();
            if text.len() > 0xffff {
                return false;
            }
            out.push(3);
            push_be(out, text.len() as u64, 2);
            push_bytes(out, text);
        },
    }
    assert(out@ =~= before + candidate_bytes(candidate@));
    true
}

/// Writes a record, if every length fits its field and the whole is not too long.
pub fn encode_presence_payload(record: &PresenceRecord) -> (payload: Result<Vec<u8>, DiscoveryError>)
    ensures
        if payload_fits(record@) {
            payload matches Ok(payload) && payload@ == payload_bytes(record@)
        } else {
            payload matches Err(error) && error == DiscoveryError::PresenceTooLarge
        },
{
    let ghost r = record@;
    if record.virtual_addrs.len() > 0xffff || record.candidates.len() > 0xffff {
        return Err(DiscoveryError::PresenceTooLarge);
    }
    let mut out: Vec<u8> = Vec::new();
    push_bytes(&mut out, PRESENCE_PAYLOAD_MAGIC.as_slice());
    push_bytes(&mut out, record.network_id.0.as_slice());
    push_be(&mut out, record.epoch, 8);
    push_be(&mut out, record.virtual_addrs.len() as u64, 2);
    assert(out@ =~= front_bytes(r));
    let mut i: usize = 0;
    assert(r.virtual_addrs.take(0) =~= Seq::<ScopedVirtualAddr>::empty());
    assert(out@ =~= front_bytes(r) + Seq::<u8>::empty());
    while i < record.virtual_addrs.len()
        invariant
            i <= record.virtual_addrs.len(),
            r == record@,
            out@ == front_bytes(r) + wire::items_bytes(addr_enc(), r.virtual_addrs.take(i as int)),
        decreases record.virtual_addrs.len() - i,
    {
        let ghost before = out@;
        encode_virtual_addr(&mut out, record.virtual_addrs[i]);
        proof {
            assert(r.virtual_addrs.take(i + 1).drop_last() =~= r.virtual_addrs.take(i as int));
            wire::lemma_assoc(
                front_bytes(r),
                wire::items_bytes(addr_enc(), r.virtual_addrs.take(i as int)),
                addr_bytes(r.virtual_addrs[i as int]),
            );
        }
        i = i + 1;
    }
    proof {
        assert(r.virtual_addrs.take(i as int) =~= r.virtual_addrs);
    }
    let ghost o1 = out@;
    push_bytes(&mut out, record.member_id.0.as_slice());
    push_bytes(&mut out, record.endpoint_id.0.as_slice());
    push_be(&mut out, record.capabilities as u64, 4);
    push_be(&mut out, record.sequence, 8);
    push_be(&mut out, record.issued_at_ms, 8);
    push_be(&mut out, record.expires_at_ms, 8);
    assert(out@ =~= o1 + middle_bytes(r));
    push_be(&mut out, record.candidates.len() as u64, 2);
    let ghost o2 = out@;
    let mut k: usize = 0;
    assert(r.candidates.take(0) =~= Seq::<Candidate>::empty());
    assert(out@ =~= o2 + Seq::<u8>::empty());
    while k < record.candidates.len()
        invariant
            k <= record.candidates.len(),
            r == record@,
            out@ == o2 + wire::items_bytes(candidate_enc(), r.candidates.take(k as int)),
            forall|j: int|
                0 <= j < k ==> ((#[trigger] r.candidates[j]) matches Candidate::Relay(url)
                    ==> wire::utf8(url).len() <= u16::MAX),
        decreases record.candidates.len() - k,
    {
        let ghost before = out@;
        assert(r.candidates[k as int] == record.candidates@[k as int]@);
        if !encode_candidate(&mut out, &record.candidates[k]) {
            assert(!payload_fits(r));
            return Err(DiscoveryError::PresenceTooLarge);
        }
        proof {
            assert(r.candidates.take(k + 1).drop_last() =~= r.candidates.take(k as int));
            wire::lemma_assoc(
                o2,
                wire::items_bytes(candidate_enc(), r.candidates.take(k as int)),
                candidate_bytes(r.candidates[k as int]),
            );
        }
        k = k + 1;
    }
    proof {
        let addrs = wire::items_bytes(addr_enc(), r.virtual_addrs);
        let items = wire::items_bytes(candidate_enc(), r.candidates);
        assert(r.candidates.take(k as int) =~= r.candidates);
        assert(out@ =~= o1 + (middle_bytes(r) + candidates_bytes(r)));
        wire::lemma_assoc(front_bytes(r), addrs, middle_bytes(r) + candidates_bytes(r));
    }
    if out.len() > MAX_PRESENCE_PAYLOAD {
        return Err(DiscoveryError::PresenceTooLarge);
    }
    Ok(out)
}

/// Reads the virtual address at a place, and tells where it ends.
fn decode_virtual_addr(bytes: &[u8], pos: usize) -> (read: Result<
    (ScopedVirtualAddr, usize),
    DiscoveryError,
>)
    requires
        pos <= bytes@.len(),
    ensures
        match p_addr(after(bytes@, pos as int)) {
            Ok((value, rest)) => read matches Ok((address, end)) && address == value && end
                <= bytes@.len() && rest == after(bytes@, end as int),
            Err(reason) => read matches Err(error) && error == reason,
        },
{
    let ghost r = after(bytes@, pos as int);
    if bytes.len() - pos < 33 {
        return Err(DiscoveryError::MalformedWire);
    }
    proof {
        assert(r.subrange(1, 33) =~= bytes@.subrange(pos + 1, pos + 33));
    }
    let app: AppAddr = AppAddr(read_array::<32>(bytes, pos + 1));
    if bytes[pos] == 1 {
        assert(r.subrange(33, r.len() as int) =~= after(bytes@, pos + 33));
        Ok((ScopedVirtualAddr::Server { app }, pos + 33))
    } else if bytes[pos] == 2 && bytes.len() - pos >= 65 {
        proof {
            assert(r.subrange(33, 65) =~= bytes@.subrange(pos + 33, pos + 65));
            assert(r.subrange(65, r.len() as int) =~= after(bytes@, pos + 65));
        }
        let device: DeviceId = DeviceId(read_array::<32>(bytes, pos + 33));
        Ok((ScopedVirtualAddr::Client { app, device }, pos + 65))
    } else {
        Err(DiscoveryError::MalformedWire)
    }
}

/// Reads the candidate at a place, and tells where it ends.
fn decode_candidate(bytes: &[u8], pos: usize) -> (read: Result<
    (DiscoveryCandidate, usize),
    DiscoveryError,
>)
    requires
        pos <= bytes@.len(),
    ensures
        match p_candidate(after(bytes@, pos as int)) {
            Ok((value, rest)) => read matches Ok((candidate, end)) && candidate@ == value && end
                <= bytes@.len() && rest == after(bytes@, end as int),
            Err(reason) => read matches Err(error) && error == reason,
        },
{
    let ghost r = after(bytes@, pos as int);
    let left: usize = bytes.len() - pos;
    if left >= 7 && bytes[pos] == 1 {
        proof {
            assert(r.subrange(1, 5) =~= bytes@.subrange(pos + 1, pos + 5));
            assert(r.subrange(5, 7) =~= bytes@.subrange(pos + 5, pos + 7));
            assert(r.subrange(7, r.len() as int) =~= after(bytes@, pos + 7));
        }
        let ip: IpAddress = IpAddress::V4(read_array::<4>(bytes, pos + 1));
        let port: u16 = read_u16(bytes, pos + 5);
        Ok((DiscoveryCandidate::Ip(SocketAddress::new(ip, port)), pos + 7))
    } else if left >= 19 && bytes[pos] == 2 {
        proof {
            assert(r.subrange(1, 17) =~= bytes@.subrange(pos + 1, pos + 17));
            assert(r.subrange(17, 19) =~= bytes@.subrange(pos + 17, pos + 19));
            assert(r.subrange(19, r.len() as int) =~= after(bytes@, pos + 19));
        }
        let ip: IpAddress = IpAddress::V6(read_array::<16>(bytes, pos + 1));
        let port: u16 = read_u16(bytes, pos + 17);
        Ok((DiscoveryCandidate::Ip(SocketAddress::new(ip, port)), pos + 19))
    } else if left >= 3 && bytes[pos] == 3 {
        proof {
            assert(r.subrange(1, 3) =~= bytes@.subrange(pos + 1, pos + 3));
        }
        let len: usize = read_u16(bytes, pos + 1) as usize;
        if left - 3 < len {
            return Err(DiscoveryError::MalformedWire);
        }
        let text: Vec<u8> = copy_range(bytes, pos + 3, pos + 3 + len);
        proof {
            assert(r.subrange(3, 3 + len as int) =~= text@);
            assert(r.subrange(3 + len as int, r.len() as int) =~= after(bytes@, pos + 3 + len));
        }
        match utf8_text(text.as_slice()) {
            Some(url) => {
                proof {
                    vstd::utf8::encode_utf8_valid_utf8(url@);
                    vstd::utf8::encode_utf8_decode_utf8(url@);
                }
                Ok((DiscoveryCandidate::Relay(url), pos + 3 + len))
            },
            None => Err(DiscoveryError::MalformedWire),
        }
    } else {
        Err(DiscoveryError::MalformedWire)
    }
}

fn decode_addresses(bytes: &[u8], pos: usize, count: u16) -> (read: Result<
    (Vec<ScopedVirtualAddr>, usize),
    DiscoveryError,
>)
    requires
        pos <= bytes@.len(),
    ensures
        match wire::p_items(addr_dec(), after(bytes@, pos as int), count as nat) {
            Ok((values, rest)) => read matches Ok((addresses, end)) && addresses@ == values && end
                <= bytes@.len() && rest == after(bytes@, end as int),
            Err(reason) => read matches Err(error) && error == reason,
        },
{
    let ghost start = after(bytes@, pos as int);
    let mut addresses: Vec<ScopedVirtualAddr> = Vec::new();
    let mut at: usize = pos;
    let mut i: u16 = 0;
    assert(addresses@ =~= Seq::<ScopedVirtualAddr>::empty());
    while i < count
        invariant
            i <= count,
            at <= bytes.len(),
            start == after(bytes@, pos as int),
            wire::p_items(addr_dec(), start, i as nat) == Ok::<
                (Seq<ScopedVirtualAddr>, Seq<u8>),
                DiscoveryError,
            >((addresses@, after(bytes@, at as int))),
        decreases count - i,
    {
        proof {
            if wire::p_items(addr_dec(), start, (i + 1) as nat) is Err {
                wire::lemma_items_error(addr_dec(), start, (i + 1) as nat, count as nat);
            }
        }
        let (address, end) = decode_virtual_addr(bytes, at)?;
        addresses.push(address);
        at = end;
        i = i + 1;
    }
    Ok((addresses, at))
}

fn decode_candidates(bytes: &[u8], pos: usize, count: u16) -> (read: Result<
    (Vec<DiscoveryCandidate>, usize),
    DiscoveryError,
>)
    requires
        pos <= bytes@.len(),
    ensures
        match wire::p_items(candidate_dec(), after(bytes@, pos as int), count as nat) {
            Ok((values, rest)) => read matches Ok((candidates, end)) && candidate_views(candidates@)
                == values && end <= bytes@.len() && rest == after(bytes@, end as int),
            Err(reason) => read matches Err(error) && error == reason,
        },
{
    let ghost start = after(bytes@, pos as int);
    let mut candidates: Vec<DiscoveryCandidate> = Vec::new();
    let mut at: usize = pos;
    let mut i: u16 = 0;
    assert(candidate_views(candidates@) =~= Seq::<Candidate>::empty());
    while i < count
        invariant
            i <= count,
            at <= bytes.len(),
            start == after(bytes@, pos as int),
            wire::p_items(candidate_dec(), start, i as nat) == Ok::<
                (Seq<Candidate>, Seq<u8>),
                DiscoveryError,
            >((candidate_views(candidates@), after(bytes@, at as int))),
        decreases count - i,
    {
        let ghost before = candidates@;
        proof {
            if wire::p_items(candidate_dec(), start, (i + 1) as nat) is Err {
                wire::lemma_items_error(candidate_dec(), start, (i + 1) as nat, count as nat);
            }
        }
        let (candidate, end) = decode_candidate(bytes, at)?;
        let ghost value = candidate@;
        candidates.push(candidate);
        assert(candidate_views(candidates@) =~= candidate_views(before).push(value));
        at = end;
        i = i + 1;
    }
    Ok((candidates, at))
}

/// Reads a record.
pub fn decode_presence_payload(bytes: &[u8]) -> (record: Result<PresenceRecord, DiscoveryError>)
    ensures
        match read_payload(bytes@) {
            Ok(value) => record matches Ok(record) && record@ == value,
            Err(reason) => record matches Err(error) && error == reason,
        },
{
    if bytes.len() < PRESENCE_FRONT_LEN || !starts_at(bytes, 0, PRESENCE_PAYLOAD_MAGIC.as_slice()) {
        return Err(DiscoveryError::MalformedWire);
    }
    let address_count: u16 = read_u16(bytes, 48);
    if address_count == 0 || address_count as usize > MAX_VIRTUAL_ADDRS {
        return Err(DiscoveryError::InvalidPresence);
    }
    let (virtual_addrs, pos) = decode_addresses(bytes, PRESENCE_FRONT_LEN, address_count)?;
    let rest: Vec<u8> = copy_range(bytes, pos, bytes.len());
    let rest: &[u8] = rest.as_slice();
    if rest.len() < 64 {
        return Err(DiscoveryError::MalformedWire);
    }
    let endpoint: [u8; 32] = read_array::<32>(rest, 32);
    proof {
        wire::lemma_array_exists::<32>(rest@.subrange(32, 64));
    }
    if !endpoint_id_ok(&endpoint) {
        return Err(DiscoveryError::MalformedEndpoint);
    }
    if rest.len() < PRESENCE_MIDDLE_LEN + 2 {
        return Err(DiscoveryError::MalformedWire);
    }
    let count: u16 = read_u16(rest, 92);
    if count as usize > MAX_CANDIDATES {
        return Err(DiscoveryError::InvalidPresence);
    }
    let (candidates, end) = decode_candidates(rest, 94, count)?;
    if end != rest.len() {
        return Err(DiscoveryError::MalformedWire);
    }
    Ok(
        PresenceRecord {
            network_id: NetworkId(read_array::<32>(bytes, 8)),
            epoch: read_u64(bytes, 40),
            virtual_addrs,
            member_id: MemberId(read_array::<32>(rest, 0)),
            endpoint_id: EndpointId(endpoint),
            candidates,
            capabilities: read_u32(rest, 64),
            sequence: read_u64(rest, 68),
            issued_at_ms: read_u64(rest, 76),
            expires_at_ms: read_u64(rest, 84),
        },
    )
}

} // verus!
