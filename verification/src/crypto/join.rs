//! Requests to join a network.
use crate::crypto::endpoint;
use crate::crypto::endpoint::{EndpointBinding, EndpointBindingPayload, ENDPOINT_PAYLOAD_LEN};
use crate::crypto::keys;
use crate::crypto::keys::{
    append_signature, derive_member_id, verify_signature, CertificateError, Signed, SigningKeypair,
    SIGNATURE_LEN,
};
use crate::crypto::member::MemberRoles;
use crate::identifiers::{MemberId, NetworkId};
use crate::outside;
use crate::outside::verifying_key_ok;
use crate::wire;
use crate::wire::{
    copy_range, is_zero, push_be, push_bytes, read_array, read_u32, read_u64, starts_at,
};
use vstd::prelude::*;
use vstd::slice::slice_subrange;

verus! {

/// What someone who asks to join says of themselves.
#[derive(Clone, Copy, Debug, PartialEq, Eq)]
pub struct JoinRequestPayload {
    pub network_id: NetworkId,
    pub member_id: MemberId,
    pub signing_public_key: [u8; 32],
    pub encryption_public_key: [u8; 32],
    pub endpoint_id: [u8; 32],
    pub nonce: [u8; 32],
    pub requested_roles: MemberRoles,
    pub expires_at_ms: u64,
}

/// The first bytes of a join request.
pub const JOIN_MAGIC: [u8; 8] = [87, 86, 82, 74, 78, 82, 0, 1];

/// The length of a join request, without its signature.
pub const JOIN_PAYLOAD_LEN: usize = 212;

/// The encoding of a join request: its fields in order, numbers big-endian.
pub open spec fn join_bytes(p: JoinRequestPayload) -> Seq<u8> {
    JOIN_MAGIC@ + p.network_id@ + p.member_id@ + p.signing_public_key@ + p.encryption_public_key@ + p.endpoint_id@ + p.nonce@ + wire::be(p.requested_roles.0 as nat, 4) + wire::be(p.expires_at_ms as nat, 8)
}

/// The value whose encoding is `b`, if there is one.
pub open spec fn read_join(b: Seq<u8>) -> Option<JoinRequestPayload> {
    if b.len() == JOIN_PAYLOAD_LEN && wire::has_at(b, 0, JOIN_MAGIC@) {
        Some(
            JoinRequestPayload {
                network_id: NetworkId(wire::array_at::<32>(b, 8)),
                member_id: MemberId(wire::array_at::<32>(b, 40)),
                signing_public_key: wire::array_at::<32>(b, 72),
                encryption_public_key: wire::array_at::<32>(b, 104),
                endpoint_id: wire::array_at::<32>(b, 136),
                nonce: wire::array_at::<32>(b, 168),
                requested_roles: MemberRoles(wire::u32_at(b, 200)),
                expires_at_ms: wire::u64_at(b, 204),
            },
        )
    } else {
        None
    }
}

/// Encoding a join request and reading it back gives the same value.
pub proof fn law_join_round_trip(p: JoinRequestPayload)
    ensures
        read_join(join_bytes(p)) == Some(p),
        join_bytes(p).len() == JOIN_PAYLOAD_LEN,
{
    let b = join_bytes(p);
    wire::lemma_pow256_values();
    wire::lemma_array_of(p.network_id.0);
    wire::lemma_array_of(p.member_id.0);
    wire::lemma_array_of(p.signing_public_key);
    wire::lemma_array_of(p.encryption_public_key);
    wire::lemma_array_of(p.endpoint_id);
    wire::lemma_array_of(p.nonce);
    wire::lemma_from_be_of_be(p.requested_roles.0 as nat, 4);
    wire::lemma_from_be_of_be(p.expires_at_ms as nat, 8);
    assert(b.subrange(0, 8) =~= JOIN_MAGIC@);
    assert(b.subrange(8, 40) =~= p.network_id@);
    assert(b.subrange(40, 72) =~= p.member_id@);
    assert(b.subrange(72, 104) =~= p.signing_public_key@);
    assert(b.subrange(104, 136) =~= p.encryption_public_key@);
    assert(b.subrange(136, 168) =~= p.endpoint_id@);
    assert(b.subrange(168, 200) =~= p.nonce@);
    assert(b.subrange(200, 204) =~= wire::be(p.requested_roles.0 as nat, 4));
    assert(b.subrange(204, 212) =~= wire::be(p.expires_at_ms as nat, 8));
}

/// Only one sequence of bytes reads as a given join payload: its encoding.
pub proof fn law_join_canonical(b: Seq<u8>)
    ensures
        read_join(b) matches Some(p) ==> join_bytes(p) == b,
{
    if b.len() == JOIN_PAYLOAD_LEN && wire::has_at(b, 0, JOIN_MAGIC@) {
        let p = read_join(b)->0;
        wire::lemma_pow256_values();
        wire::lemma_array_exists::<32>(b.subrange(8, 40));
        wire::lemma_array_exists::<32>(b.subrange(40, 72));
        wire::lemma_array_exists::<32>(b.subrange(72, 104));
        wire::lemma_array_exists::<32>(b.subrange(104, 136));
        wire::lemma_array_exists::<32>(b.subrange(136, 168));
        wire::lemma_array_exists::<32>(b.subrange(168, 200));
        wire::lemma_be_of_from_be(b.subrange(200, 204));
        wire::lemma_be_of_from_be(b.subrange(204, 212));
        assert(join_bytes(p) == b.subrange(0, 8) + b.subrange(8, 40) + b.subrange(40, 72) + b.subrange(72, 104) + b.subrange(104, 136) + b.subrange(136, 168) + b.subrange(168, 200) + b.subrange(200, 204) + b.subrange(204, 212));
        assert(join_bytes(p) =~= b);
    }
}

fn encode_join_payload(payload: &JoinRequestPayload) -> (bytes: Vec<u8>)
    ensures
        bytes@ == join_bytes(*payload),
{
    let mut out: Vec<u8> = Vec::new();
    push_bytes(&mut out, JOIN_MAGIC.as_slice());
    push_bytes(&mut out, payload.network_id.as_bytes().as_slice());
    push_bytes(&mut out, payload.member_id.as_bytes().as_slice());
    push_bytes(&mut out, payload.signing_public_key.as_slice());
    push_bytes(&mut out, payload.encryption_public_key.as_slice());
    push_bytes(&mut out, payload.endpoint_id.as_slice());
    push_bytes(&mut out, payload.nonce.as_slice());
    push_be(&mut out, payload.requested_roles.bits() as u64, 4);
    push_be(&mut out, payload.expires_at_ms, 8);
    assert(out@ =~= join_bytes(*payload));
    out
}

fn decode_join_payload(bytes: &[u8]) -> (payload: Option<JoinRequestPayload>)
    ensures
        payload == read_join(bytes@),
{
    if bytes.len() != JOIN_PAYLOAD_LEN || !starts_at(bytes, 0, JOIN_MAGIC.as_slice()) {
        return None;
    }
    Some(
        JoinRequestPayload {
            network_id: NetworkId::from_bytes(read_array::<32>(bytes, 8)),
            member_id: MemberId::from_bytes(read_array::<32>(bytes, 40)),
            signing_public_key: read_array::<32>(bytes, 72),
            encryption_public_key: read_array::<32>(bytes, 104),
            endpoint_id: read_array::<32>(bytes, 136),
            nonce: read_array::<32>(bytes, 168),
            requested_roles: MemberRoles::from_bits(read_u32(bytes, 200)),
            expires_at_ms: read_u64(bytes, 204),
        },
    )
}

/// The signed value that `b` encodes: the payload, then the signature.
pub open spec fn read_signed_join(b: Seq<u8>) -> Option<Signed<JoinRequestPayload>> {
    if b.len() == JOIN_PAYLOAD_LEN + SIGNATURE_LEN {
        match read_join(b.subrange(0, JOIN_PAYLOAD_LEN as int)) {
            Some(payload) => Some(
                Signed { payload, signature: wire::array_at::<64>(b, JOIN_PAYLOAD_LEN as int) },
            ),
            None => None,
        }
    } else {
        None
    }
}

/// The encoding of a signed value.
pub open spec fn signed_join_bytes(c: Signed<JoinRequestPayload>) -> Seq<u8> {
    join_bytes(c.payload) + c.signature@
}

/// Encoding a signed value and reading it back gives the same value.
pub proof fn law_signed_join_round_trip(c: Signed<JoinRequestPayload>)
    ensures
        read_signed_join(signed_join_bytes(c)) == Some(c),
{
    let b = signed_join_bytes(c);
    law_join_round_trip(c.payload);
    wire::lemma_array_of(c.signature);
    assert(b.subrange(0, JOIN_PAYLOAD_LEN as int) =~= join_bytes(c.payload));
    assert(b.subrange(JOIN_PAYLOAD_LEN as int, JOIN_PAYLOAD_LEN + 64) =~= c.signature@);
}

/// Only one sequence of bytes reads as a given signed value: its encoding.
pub proof fn law_signed_join_canonical(b: Seq<u8>)
    ensures
        read_signed_join(b) matches Some(c) ==> signed_join_bytes(c) == b,
{
    if read_signed_join(b) is Some {
        let c = read_signed_join(b)->0;
        law_join_canonical(b.subrange(0, JOIN_PAYLOAD_LEN as int));
        wire::lemma_array_exists::<64>(b.subrange(JOIN_PAYLOAD_LEN as int, JOIN_PAYLOAD_LEN + 64));
        assert(signed_join_bytes(c) =~= b);
    }
}

/// A self-signed request to be admitted to a network.
#[derive(Debug, PartialEq, Eq)]
pub struct JoinRequest {
    payload: JoinRequestPayload,
    signed_payload: Vec<u8>,
    signature: [u8; 64],
}

impl View for JoinRequest {
    type V = Signed<JoinRequestPayload>;

    closed spec fn view(&self) -> Signed<JoinRequestPayload> {
        Signed { payload: self.payload, signature: self.signature }
    }
}

impl Clone for JoinRequest {
    fn clone(&self) -> (copy: Self)
        ensures
            copy@ == self@,
    {
        proof {
            use_type_invariant(self);
        }
        let mut signed_payload: Vec<u8> = Vec::new();
        push_bytes(&mut signed_payload, self.signed_payload.as_slice());
        assert(signed_payload@ =~= self.signed_payload@);
        JoinRequest { payload: self.payload, signed_payload, signature: self.signature }
    }
}

/// Whether one of the three values that may not be all zeros is.
pub open spec fn has_zero_key(
    encryption_public_key: [u8; 32],
    endpoint_id: [u8; 32],
    nonce: [u8; 32],
) -> bool {
    encryption_public_key@ == wire::zeros(32) || endpoint_id@ == wire::zeros(32) || nonce@
        == wire::zeros(32)
}

/// What the holder of the secret `secret` writes into a request to join.
pub open spec fn join_created(
    network: NetworkId,
    secret: Seq<u8>,
    encryption_public_key: [u8; 32],
    endpoint_id: [u8; 32],
    nonce: [u8; 32],
    requested_roles: MemberRoles,
    expires_at_ms: u64,
) -> JoinRequestPayload {
    JoinRequestPayload {
        network_id: network,
        member_id: keys::member_id_of(network, outside::ed25519_public(secret)),
        signing_public_key: wire::array_of::<32>(outside::ed25519_public(secret)),
        encryption_public_key,
        endpoint_id,
        nonce,
        requested_roles,
        expires_at_ms,
    }
}

/// What becomes of a request to join: its payload, or the first of these reasons that applies.
pub open spec fn join_verdict(
    c: Signed<JoinRequestPayload>,
    network: NetworkId,
    now_ms: u64,
) -> Result<JoinRequestPayload, CertificateError> {
    let p = c.payload;
    if p.network_id != network {
        Err(CertificateError::WrongNetwork)
    } else if now_ms >= p.expires_at_ms {
        Err(CertificateError::Expired)
    } else if has_zero_key(p.encryption_public_key, p.endpoint_id, p.nonce) {
        Err(CertificateError::MalformedKey)
    } else if keys::member_id_of(network, p.signing_public_key@) != p.member_id {
        Err(CertificateError::DerivedIdentityMismatch)
    } else if !outside::ed25519_key_ok(p.signing_public_key@) {
        Err(CertificateError::MalformedKey)
    } else if !outside::ed25519_verifies(p.signing_public_key@, join_bytes(p), c.signature@) {
        Err(CertificateError::InvalidSignature)
    } else {
        Ok(p)
    }
}

fn any_zero(a: &[u8; 32], b: &[u8; 32], c: &[u8; 32]) -> (zero: bool)
    ensures
        zero == has_zero_key(*a, *b, *c),
{
    is_zero(a) || is_zero(b) || is_zero(c)
}

impl JoinRequest {
    #[verifier::type_invariant]
    spec fn well_formed(self) -> bool {
        self.signed_payload@ == join_bytes(self.payload)
    }

    /// Reads exactly the encodings of signed values.
    pub fn from_bytes(bytes: &[u8]) -> (signed: Result<Self, CertificateError>)
        ensures
            match read_signed_join(bytes@) {
                Some(value) => signed matches Ok(signed) && signed@ == value,
                None => signed matches Err(error) && error == CertificateError::MalformedWire,
            },
    {
        if bytes.len() != JOIN_PAYLOAD_LEN + SIGNATURE_LEN {
            return Err(CertificateError::MalformedWire);
        }
        let signed_payload: Vec<u8> = copy_range(bytes, 0, JOIN_PAYLOAD_LEN);
        match decode_join_payload(signed_payload.as_slice()) {
            Some(payload) => {
                let signature: [u8; 64] = read_array::<64>(bytes, JOIN_PAYLOAD_LEN);
                proof {
                    law_join_canonical(signed_payload@);
                }
                Ok(JoinRequest { payload, signed_payload, signature })
            },
            None => Err(CertificateError::MalformedWire),
        }
    }

    /// The exact bytes: the payload as signed, then the signature.
    pub fn to_bytes(&self) -> (bytes: Vec<u8>)
        ensures
            bytes@ == signed_join_bytes(self@),
    {
        proof {
            use_type_invariant(self);
        }
        append_signature(self.signed_payload.as_slice(), &self.signature)
    }

    pub fn payload(&self) -> (payload: &JoinRequestPayload)
        ensures
            *payload == self@.payload,
    {
        &self.payload
    }

    /// Asks to join, if none of the encryption key, the endpoint and the nonce is all zeros. The
    /// request is accepted from then on until it expires.
    pub fn create(
        network_id: NetworkId,
        member_signing: &SigningKeypair,
        encryption_public_key: [u8; 32],
        endpoint_id: [u8; 32],
        nonce: [u8; 32],
        requested_roles: MemberRoles,
        expires_at_ms: u64,
    ) -> (created: Result<Self, CertificateError>)
        ensures
            if has_zero_key(encryption_public_key, endpoint_id, nonce) {
                created matches Err(error) && error == CertificateError::MalformedKey
            } else {
                created matches Ok(c) && c@.payload == join_created(
                    network_id,
                    member_signing@,
                    encryption_public_key,
                    endpoint_id,
                    nonce,
                    requested_roles,
                    expires_at_ms,
                ) && c@.payload.signing_public_key@ == outside::ed25519_public(member_signing@)
                    && c@.signature@ == outside::ed25519_signature(
                    member_signing@,
                    join_bytes(c@.payload),
                ) && (forall|now_ms: u64| #[trigger]
                    join_verdict(c@, network_id, now_ms) == (if now_ms >= expires_at_ms {
                        Err(CertificateError::Expired)
                    } else {
                        Ok::<JoinRequestPayload, CertificateError>(c@.payload)
                    }))
            },
    {
        if any_zero(&encryption_public_key, &endpoint_id, &nonce) {
            return Err(CertificateError::MalformedKey);
        }
        let signing_public_key: [u8; 32] = member_signing.public_bytes();
        proof {
            wire::lemma_array_of(signing_public_key);
        }
        let payload = JoinRequestPayload {
            network_id,
            member_id: derive_member_id(network_id, &signing_public_key),
            signing_public_key,
            encryption_public_key,
            endpoint_id,
            nonce,
            requested_roles,
            expires_at_ms,
        };
        let signed_payload: Vec<u8> = encode_join_payload(&payload);
        let signature: [u8; 64] = member_signing.sign(signed_payload.as_slice());
        Ok(JoinRequest { payload, signed_payload, signature })
    }

    /// Checks a request against the network and the time.
    pub fn verify(&self, expected_network: NetworkId, now_ms: u64) -> (verified: Result<
        VerifiedJoinRequest,
        CertificateError,
    >)
        ensures
            match join_verdict(self@, expected_network, now_ms) {
                Ok(payload) => verified matches Ok(request) && request@ == payload,
                Err(reason) => verified matches Err(error) && error == reason,
            },
    {
        proof {
            use_type_invariant(self);
        }
        if self.payload.network_id != expected_network {
            return Err(CertificateError::WrongNetwork);
        }
        if now_ms >= self.payload.expires_at_ms {
            return Err(CertificateError::Expired);
        }
        if any_zero(
            &self.payload.encryption_public_key,
            &self.payload.endpoint_id,
            &self.payload.nonce,
        ) {
            return Err(CertificateError::MalformedKey);
        }
        if derive_member_id(expected_network, &self.payload.signing_public_key)
            != self.payload.member_id {
            return Err(CertificateError::DerivedIdentityMismatch);
        }
        if !verifying_key_ok(&self.payload.signing_public_key) {
            return Err(CertificateError::MalformedKey);
        }
        match verify_signature(
            &self.payload.signing_public_key,
            self.signed_payload.as_slice(),
            &self.signature,
        ) {
            Ok(()) => Ok(VerifiedJoinRequest(self.payload)),
            Err(error) => Err(error),
        }
    }
}

/// A request to join that was checked. Its view is the request's payload.
#[derive(Clone, Copy, Debug, PartialEq, Eq)]
pub struct VerifiedJoinRequest(JoinRequestPayload);

impl View for VerifiedJoinRequest {
    type V = JoinRequestPayload;

    closed spec fn view(&self) -> JoinRequestPayload {
        self.0
    }
}

impl VerifiedJoinRequest {
    pub fn payload(&self) -> (payload: &JoinRequestPayload)
        ensures
            *payload == self@,
    {
        &self.0
    }
}

/// A request to join together with the claim to the endpoint it names.
#[derive(Debug, PartialEq, Eq)]
pub struct PreparedJoinRequest {
    pub request: JoinRequest,
    pub endpoint_binding: EndpointBinding,
}

impl Clone for PreparedJoinRequest {
    fn clone(&self) -> (copy: Self)
        ensures
            copy.request@ == self.request@,
            copy.endpoint_binding@ == self.endpoint_binding@,
    {
        PreparedJoinRequest {
            request: self.request.clone(),
            endpoint_binding: self.endpoint_binding.clone(),
        }
    }
}

/// The contents of a prepared request.
pub struct PreparedJoin {
    pub request: Signed<JoinRequestPayload>,
    pub endpoint_binding: Signed<EndpointBindingPayload>,
}

impl View for PreparedJoinRequest {
    type V = PreparedJoin;

    open spec fn view(&self) -> PreparedJoin {
        PreparedJoin { request: self.request@, endpoint_binding: self.endpoint_binding@ }
    }
}

/// The first bytes of a prepared request.
pub const PREPARED_JOIN_MAGIC: [u8; 8] = [87, 86, 82, 80, 74, 82, 0, 1];

/// The length of a signed request to join.
pub const SIGNED_JOIN_LEN: usize = JOIN_PAYLOAD_LEN + SIGNATURE_LEN;

/// The length of a signed endpoint binding.
pub const SIGNED_ENDPOINT_LEN: usize = ENDPOINT_PAYLOAD_LEN + SIGNATURE_LEN;

/// The length of a prepared request.
pub const PREPARED_JOIN_LEN: usize = 8 + 4 + SIGNED_JOIN_LEN + 4 + SIGNED_ENDPOINT_LEN;

/// The encoding of a prepared request: both signed values, each behind its length.
pub open spec fn prepared_bytes(p: PreparedJoin) -> Seq<u8> {
    PREPARED_JOIN_MAGIC@ + wire::be(SIGNED_JOIN_LEN as nat, 4) + signed_join_bytes(p.request)
        + wire::be(SIGNED_ENDPOINT_LEN as nat, 4) + endpoint::signed_endpoint_bytes(
        p.endpoint_binding,
    )
}

/// The prepared request that `b` encodes, if there is one.
pub open spec fn read_prepared(b: Seq<u8>) -> Option<PreparedJoin> {
    if b.len() == PREPARED_JOIN_LEN && wire::has_at(b, 0, PREPARED_JOIN_MAGIC@) && wire::u32_at(b, 8)
        == SIGNED_JOIN_LEN && wire::u32_at(b, 12 + SIGNED_JOIN_LEN as int) == SIGNED_ENDPOINT_LEN {
        match (
            read_signed_join(b.subrange(12, 12 + SIGNED_JOIN_LEN)),
            endpoint::read_signed_endpoint(
                b.subrange(16 + SIGNED_JOIN_LEN as int, PREPARED_JOIN_LEN as int),
            ),
        ) {
            (Some(request), Some(endpoint_binding)) => Some(
                PreparedJoin { request, endpoint_binding },
            ),
            _ => None,
        }
    } else {
        None
    }
}

/// Encoding a prepared request and reading it back gives the same value.
pub proof fn law_prepared_round_trip(p: PreparedJoin)
    ensures
        read_prepared(prepared_bytes(p)) == Some(p),
{
    let b = prepared_bytes(p);
    wire::lemma_pow256_values();
    wire::lemma_from_be_of_be(SIGNED_JOIN_LEN as nat, 4);
    wire::lemma_from_be_of_be(SIGNED_ENDPOINT_LEN as nat, 4);
    law_signed_join_round_trip(p.request);
    endpoint::law_signed_endpoint_round_trip(p.endpoint_binding);
    law_join_round_trip(p.request.payload);
    endpoint::law_endpoint_round_trip(p.endpoint_binding.payload);
    assert(b.subrange(0, 8) =~= PREPARED_JOIN_MAGIC@);
    assert(b.subrange(8, 12) =~= wire::be(SIGNED_JOIN_LEN as nat, 4));
    assert(b.subrange(12, 12 + SIGNED_JOIN_LEN) =~= signed_join_bytes(p.request));
    assert(b.subrange(12 + SIGNED_JOIN_LEN as int, 16 + SIGNED_JOIN_LEN) =~= wire::be(
        SIGNED_ENDPOINT_LEN as nat,
        4,
    ));
    assert(b.subrange(16 + SIGNED_JOIN_LEN as int, PREPARED_JOIN_LEN as int)
        =~= endpoint::signed_endpoint_bytes(p.endpoint_binding));
}

/// Only one sequence of bytes reads as a given prepared request: its encoding.
pub proof fn law_prepared_canonical(b: Seq<u8>)
    ensures
        read_prepared(b) matches Some(p) ==> prepared_bytes(p) == b,
{
    if read_prepared(b) is Some {
        let first = b.subrange(12, 12 + SIGNED_JOIN_LEN);
        let second = b.subrange(16 + SIGNED_JOIN_LEN as int, PREPARED_JOIN_LEN as int);
        wire::lemma_pow256_values();
        law_signed_join_canonical(first);
        endpoint::law_signed_endpoint_canonical(second);
        wire::lemma_be_of_from_be(b.subrange(8, 12));
        wire::lemma_be_of_from_be(b.subrange(12 + SIGNED_JOIN_LEN as int, 16 + SIGNED_JOIN_LEN));
        assert(b.subrange(0, 8) == PREPARED_JOIN_MAGIC@);
        assert(b =~= b.subrange(0, 8) + b.subrange(8, 12) + first + b.subrange(
            12 + SIGNED_JOIN_LEN as int,
            16 + SIGNED_JOIN_LEN,
        ) + second);
    }
}

/// What becomes of a prepared request: its payload, or the first reason against the request or,
/// after it, against the endpoint binding.
pub open spec fn prepared_verdict(p: PreparedJoin, network: NetworkId, now_ms: u64) -> Result<
    JoinRequestPayload,
    CertificateError,
> {
    match join_verdict(p.request, network, now_ms) {
        Err(reason) => Err(reason),
        Ok(request) => match endpoint::endpoint_join_verdict(
            p.endpoint_binding,
            request,
            network,
            now_ms,
        ) {
            Err(reason) => Err(reason),
            Ok(()) => Ok(request),
        },
    }
}

impl PreparedJoinRequest {
    /// Asks to join and claims the endpoint in one value, which is accepted from then on until it
    /// expires.
    pub fn create(
        network_id: NetworkId,
        member_signing: &SigningKeypair,
        encryption_public_key: [u8; 32],
        endpoint_id: [u8; 32],
        nonce: [u8; 32],
        requested_roles: MemberRoles,
        expires_at_ms: u64,
    ) -> (created: Result<Self, CertificateError>)
        ensures
            if has_zero_key(encryption_public_key, endpoint_id, nonce) {
                created matches Err(error) && error == CertificateError::MalformedKey
            } else {
                created matches Ok(p) && p@.request.payload == join_created(
                    network_id,
                    member_signing@,
                    encryption_public_key,
                    endpoint_id,
                    nonce,
                    requested_roles,
                    expires_at_ms,
                ) && p@.endpoint_binding.payload == (EndpointBindingPayload {
                    network_id,
                    member_id: keys::member_id_of(
                        network_id,
                        outside::ed25519_public(member_signing@),
                    ),
                    endpoint_id,
                    sequence: 0,
                    expires_at_ms,
                }) && p@.request.signature@ == outside::ed25519_signature(
                    member_signing@,
                    join_bytes(p@.request.payload),
                ) && p@.endpoint_binding.signature@ == outside::ed25519_signature(
                    member_signing@,
                    endpoint::endpoint_bytes(p@.endpoint_binding.payload),
                ) && (forall|now_ms: u64| #[trigger]
                    prepared_verdict(p@, network_id, now_ms) == (if now_ms >= expires_at_ms {
                        Err(CertificateError::Expired)
                    } else {
                        Ok::<JoinRequestPayload, CertificateError>(p@.request.payload)
                    }))
            },
    {
        let request: JoinRequest = match JoinRequest::create(
            network_id,
            member_signing,
            encryption_public_key,
            endpoint_id,
            nonce,
            requested_roles,
            expires_at_ms,
        ) {
            Ok(request) => request,
            Err(error) => {
                return Err(error);
            },
        };
        match EndpointBinding::issue_for_join(
            member_signing,
            network_id,
            endpoint_id,
            0,
            expires_at_ms,
        ) {
            Ok(endpoint_binding) => Ok(PreparedJoinRequest { request, endpoint_binding }),
            Err(error) => Err(error),
        }
    }

    /// The bytes in which a prepared request is kept and sent.
    pub fn to_bytes(&self) -> (bytes: Vec<u8>)
        ensures
            bytes@ == prepared_bytes(self@),
    {
        let request: Vec<u8> = self.request.to_bytes();
        let binding: Vec<u8> = self.endpoint_binding.to_bytes();
        proof {
            law_join_round_trip(self.request@.payload);
            endpoint::law_endpoint_round_trip(self.endpoint_binding@.payload);
        }
        let mut out: Vec<u8> = Vec::new();
        push_bytes(&mut out, PREPARED_JOIN_MAGIC.as_slice());
        push_be(&mut out, request.len() as u64, 4);
        push_bytes(&mut out, request.as_slice());
        push_be(&mut out, binding.len() as u64, 4);
        push_bytes(&mut out, binding.as_slice());
        assert(out@ =~= prepared_bytes(self@));
        out
    }

    /// Reads exactly the encodings of prepared requests.
    pub fn from_bytes(bytes: &[u8]) -> (prepared: Result<Self, CertificateError>)
        ensures
            match read_prepared(bytes@) {
                Some(value) => prepared matches Ok(prepared) && prepared@ == value,
                None => prepared matches Err(error) && error == CertificateError::MalformedWire,
            },
    {
        if bytes.len() != PREPARED_JOIN_LEN || !starts_at(bytes, 0, PREPARED_JOIN_MAGIC.as_slice())
            || read_u32(bytes, 8) as usize != SIGNED_JOIN_LEN || read_u32(
            bytes,
            12 + SIGNED_JOIN_LEN,
        ) as usize != SIGNED_ENDPOINT_LEN {
            return Err(CertificateError::MalformedWire);
        }
        let request: JoinRequest = match JoinRequest::from_bytes(
            slice_subrange(bytes, 12, 12 + SIGNED_JOIN_LEN),
        ) {
            Ok(request) => request,
            Err(error) => {
                return Err(error);
            },
        };
        match EndpointBinding::from_bytes(
            slice_subrange(bytes, 16 + SIGNED_JOIN_LEN, PREPARED_JOIN_LEN),
        ) {
            Ok(endpoint_binding) => Ok(PreparedJoinRequest { request, endpoint_binding }),
            Err(error) => Err(error),
        }
    }

    /// Checks the request, then the claim to its endpoint.
    pub fn verify(&self, expected_network: NetworkId, now_ms: u64) -> (verified: Result<
        VerifiedJoinRequest,
        CertificateError,
    >)
        ensures
            match prepared_verdict(self@, expected_network, now_ms) {
                Ok(payload) => verified matches Ok(request) && request@ == payload,
                Err(reason) => verified matches Err(error) && error == reason,
            },
    {
        let request: VerifiedJoinRequest = match self.request.verify(expected_network, now_ms) {
            Ok(request) => request,
            Err(error) => {
                return Err(error);
            },
        };
        match self.endpoint_binding.verify_for_join(&request, expected_network, now_ms) {
            Ok(()) => Ok(request),
            Err(error) => Err(error),
        }
    }
}

/// A request that is accepted now was accepted at every earlier time: only the clock runs out.
pub proof fn law_prepared_stays_valid_until_expiry(
    p: PreparedJoin,
    network: NetworkId,
    earlier_ms: u64,
    now_ms: u64,
)
    requires
        earlier_ms <= now_ms,
        prepared_verdict(p, network, now_ms) is Ok,
    ensures
        prepared_verdict(p, network, earlier_ms) == prepared_verdict(p, network, now_ms),
        now_ms < p.request.payload.expires_at_ms,
        p.endpoint_binding.payload.endpoint_id == p.request.payload.endpoint_id,
        p.endpoint_binding.payload.member_id == p.request.payload.member_id,
{
}

} // verus!
