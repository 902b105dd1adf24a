//! Bindings by which members claim the transport endpoints they speak from.
use crate::crypto::join::VerifiedJoinRequest;
use crate::crypto::join::JoinRequestPayload;
use crate::crypto::keys;
use crate::crypto::keys::{
    append_signature, derive_member_id, verify_signature, CertificateError, Signed, SigningKeypair,
    SIGNATURE_LEN,
};
use crate::crypto::member::{MemberCertificatePayload, VerifiedMember};
use crate::identifiers::{MemberId, NetworkId};
use crate::outside;
use crate::outside::verifying_key_ok;
use crate::wire;
use crate::wire::{
    arrays_equal, copy_range, is_zero, push_be, push_bytes, read_array, read_u64, starts_at,
};
use vstd::prelude::*;

verus! {

/// What a member says of an endpoint.
#[derive(Clone, Copy, Debug, PartialEq, Eq)]
pub struct EndpointBindingPayload {
    pub network_id: NetworkId,
    pub member_id: MemberId,
    pub endpoint_id: [u8; 32],
    pub sequence: u64,
    pub expires_at_ms: u64,
}

/// The first bytes of an endpoint binding.
pub const ENDPOINT_MAGIC: [u8; 8] = [87, 86, 82, 69, 78, 68, 0, 1];

/// The length of an endpoint binding, without its signature.
pub const ENDPOINT_PAYLOAD_LEN: usize = 120;

/// The encoding of an endpoint binding: its fields in order, numbers big-endian.
pub open spec fn endpoint_bytes(p: EndpointBindingPayload) -> Seq<u8> {
    ENDPOINT_MAGIC@ + p.network_id@ + p.member_id@ + p.endpoint_id@ + wire::be(p.sequence as nat, 8) + wire::be(p.expires_at_ms as nat, 8)
}

/// The value whose encoding is `b`, if there is one.
pub open spec fn read_endpoint(b: Seq<u8>) -> Option<EndpointBindingPayload> {
    if b.len() == ENDPOINT_PAYLOAD_LEN && wire::has_at(b, 0, ENDPOINT_MAGIC@) {
        Some(
            EndpointBindingPayload {
                network_id: NetworkId(wire::array_at::<32>(b, 8)),
                member_id: MemberId(wire::array_at::<32>(b, 40)),
                endpoint_id: wire::array_at::<32>(b, 72),
                sequence: wire::u64_at(b, 104),
                expires_at_ms: wire::u64_at(b, 112),
            },
        )
    } else {
        None
    }
}

/// Encoding an endpoint binding and reading it back gives the same value.
pub proof fn law_endpoint_round_trip(p: EndpointBindingPayload)
    ensures
        read_endpoint(endpoint_bytes(p)) == Some(p),
        endpoint_bytes(p).len() == ENDPOINT_PAYLOAD_LEN,
{
    let b = endpoint_bytes(p);
    wire::lemma_pow256_values();
    wire::lemma_array_of(p.network_id.0);
    wire::lemma_array_of(p.member_id.0);
    wire::lemma_array_of(p.endpoint_id);
    wire::lemma_from_be_of_be(p.sequence as nat, 8);
    wire::lemma_from_be_of_be(p.expires_at_ms as nat, 8);
    assert(b.subrange(0, 8) =~= ENDPOINT_MAGIC@);
    assert(b.subrange(8, 40) =~= p.network_id@);
    assert(b.subrange(40, 72) =~= p.member_id@);
    assert(b.subrange(72, 104) =~= p.endpoint_id@);
    assert(b.subrange(104, 112) =~= wire::be(p.sequence as nat, 8));
    assert(b.subrange(112, 120) =~= wire::be(p.expires_at_ms as nat, 8));
}

/// Only one sequence of bytes reads as a given endpoint payload: its encoding.
pub proof fn law_endpoint_canonical(b: Seq<u8>)
    ensures
        read_endpoint(b) matches Some(p) ==> endpoint_bytes(p) == b,
{
    if b.len() == ENDPOINT_PAYLOAD_LEN && wire::has_at(b, 0, ENDPOINT_MAGIC@) {
        let p = read_endpoint(b)->0;
        wire::lemma_pow256_values();
        wire::lemma_array_exists::<32>(b.subrange(8, 40));
        wire::lemma_array_exists::<32>(b.subrange(40, 72));
        wire::lemma_array_exists::<32>(b.subrange(72, 104));
        wire::lemma_be_of_from_be(b.subrange(104, 112));
        wire::lemma_be_of_from_be(b.subrange(112, 120));
        assert(endpoint_bytes(p) == b.subrange(0, 8) + b.subrange(8, 40) + b.subrange(40, 72) + b.subrange(72, 104) + b.subrange(104, 112) + b.subrange(112, 120));
        assert(endpoint_bytes(p) =~= b);
    }
}

fn encode_endpoint_payload(payload: &EndpointBindingPayload) -> (bytes: Vec<u8>)
    ensures
        bytes@ == endpoint_bytes(*payload),
{
    let mut out: Vec<u8> = Vec::new();
    push_bytes(&mut out, ENDPOINT_MAGIC.as_slice());
    push_bytes(&mut out, payload.network_id.as_bytes().as_slice());
    push_bytes(&mut out, payload.member_id.as_bytes().as_slice());
    push_bytes(&mut out, payload.endpoint_id.as_slice());
    push_be(&mut out, payload.sequence, 8);
    push_be(&mut out, payload.expires_at_ms, 8);
    assert(out@ =~= endpoint_bytes(*payload));
    out
}

fn decode_endpoint_payload(bytes: &[u8]) -> (payload: Option<EndpointBindingPayload>)
    ensures
        payload == read_endpoint(bytes@),
{
    if bytes.len() != ENDPOINT_PAYLOAD_LEN || !starts_at(bytes, 0, ENDPOINT_MAGIC.as_slice()) {
        return None;
    }
    Some(
        EndpointBindingPayload {
            network_id: NetworkId::from_bytes(read_array::<32>(bytes, 8)),
            member_id: MemberId::from_bytes(read_array::<32>(bytes, 40)),
            endpoint_id: read_array::<32>(bytes, 72),
            sequence: read_u64(bytes, 104),
            expires_at_ms: read_u64(bytes, 112),
        },
    )
}

/// The signed value that `b` encodes: the payload, then the signature.
pub open spec fn read_signed_endpoint(b: Seq<u8>) -> Option<Signed<EndpointBindingPayload>> {
    if b.len() == ENDPOINT_PAYLOAD_LEN + SIGNATURE_LEN {
        match read_endpoint(b.subrange(0, ENDPOINT_PAYLOAD_LEN as int)) {
            Some(payload) => Some(
                Signed { payload, signature: wire::array_at::<64>(b, ENDPOINT_PAYLOAD_LEN as int) },
            ),
            None => None,
        }
    } else {
        None
    }
}

/// The encoding of a signed value.
pub open spec fn signed_endpoint_bytes(c: Signed<EndpointBindingPayload>) -> Seq<u8> {
    endpoint_bytes(c.payload) + c.signature@
}

/// Encoding a signed value and reading it back gives the same value.
pub proof fn law_signed_endpoint_round_trip(c: Signed<EndpointBindingPayload>)
    ensures
        read_signed_endpoint(signed_endpoint_bytes(c)) == Some(c),
{
    let b = signed_endpoint_bytes(c);
    law_endpoint_round_trip(c.payload);
    wire::lemma_array_of(c.signature);
    assert(b.subrange(0, ENDPOINT_PAYLOAD_LEN as int) =~= endpoint_bytes(c.payload));
    assert(b.subrange(ENDPOINT_PAYLOAD_LEN as int, ENDPOINT_PAYLOAD_LEN + 64) =~= c.signature@);
}

/// Only one sequence of bytes reads as a given signed value: its encoding.
pub proof fn law_signed_endpoint_canonical(b: Seq<u8>)
    ensures
        read_signed_endpoint(b) matches Some(c) ==> signed_endpoint_bytes(c) == b,
{
    if read_signed_endpoint(b) is Some {
        let c = read_signed_endpoint(b)->0;
        law_endpoint_canonical(b.subrange(0, ENDPOINT_PAYLOAD_LEN as int));
        wire::lemma_array_exists::<64>(b.subrange(ENDPOINT_PAYLOAD_LEN as int, ENDPOINT_PAYLOAD_LEN + 64));
        assert(signed_endpoint_bytes(c) =~= b);
    }
}

/// A member-signed claim to one transport endpoint.
#[derive(Debug, PartialEq, Eq)]
pub struct EndpointBinding {
    payload: EndpointBindingPayload,
    signed_payload: Vec<u8>,
    signature: [u8; 64],
}

impl View for EndpointBinding {
    type V = Signed<EndpointBindingPayload>;

    closed spec fn view(&self) -> Signed<EndpointBindingPayload> {
        Signed { payload: self.payload, signature: self.signature }
    }
}

impl Clone for EndpointBinding {
    fn clone(&self) -> (copy: Self)
        ensures
            copy@ == self@,
    {
        proof {
            use_type_invariant(self);
        }
        let mut signed_payload: Vec<u8> = Vec::new();
        push_bytes(&mut signed_payload, self.signed_payload.as_slice());
        assert(signed_payload@ =~= self.signed_payload@);
        EndpointBinding { payload: self.payload, signed_payload, signature: self.signature }
    }
}

/// What becomes of a binding that is checked against the member who claims the endpoint: the
/// first of these reasons that applies, if one does.
pub open spec fn endpoint_verdict(
    c: Signed<EndpointBindingPayload>,
    member: MemberCertificatePayload,
    network: NetworkId,
    endpoint_id: [u8; 32],
    now_ms: u64,
) -> Result<(), CertificateError> {
    let p = c.payload;
    if p.network_id != network || member.network_id != network {
        Err(CertificateError::WrongNetwork)
    } else if p.member_id != member.member_id || p.endpoint_id != endpoint_id {
        Err(CertificateError::BindingMismatch)
    } else if now_ms >= p.expires_at_ms {
        Err(CertificateError::Expired)
    } else if !outside::ed25519_key_ok(member.signing_public_key@) {
        Err(CertificateError::MalformedKey)
    } else if !outside::ed25519_verifies(
        member.signing_public_key@,
        endpoint_bytes(p),
        c.signature@,
    ) {
        Err(CertificateError::InvalidSignature)
    } else {
        Ok(())
    }
}

/// What becomes of a binding that comes with a request to join: the first of these reasons that
/// applies, if one does.
pub open spec fn endpoint_join_verdict(
    c: Signed<EndpointBindingPayload>,
    request: JoinRequestPayload,
    network: NetworkId,
    now_ms: u64,
) -> Result<(), CertificateError> {
    let p = c.payload;
    if p.network_id != network || request.network_id != network {
        Err(CertificateError::WrongNetwork)
    } else if p.member_id != request.member_id || p.endpoint_id != request.endpoint_id
        || p.sequence != 0 || p.expires_at_ms != request.expires_at_ms {
        Err(CertificateError::BindingMismatch)
    } else if now_ms >= p.expires_at_ms {
        Err(CertificateError::Expired)
    } else if !outside::ed25519_key_ok(request.signing_public_key@) {
        Err(CertificateError::MalformedKey)
    } else if !outside::ed25519_verifies(
        request.signing_public_key@,
        endpoint_bytes(p),
        c.signature@,
    ) {
        Err(CertificateError::InvalidSignature)
    } else {
        Ok(())
    }
}

impl EndpointBinding {
    #[verifier::type_invariant]
    spec fn well_formed(self) -> bool {
        self.signed_payload@ == endpoint_bytes(self.payload)
    }

    /// Reads exactly the encodings of signed values.
    pub fn from_bytes(bytes: &[u8]) -> (signed: Result<Self, CertificateError>)
        ensures
            match read_signed_endpoint(bytes@) {
                Some(value) => signed matches Ok(signed) && signed@ == value,
                None => signed matches Err(error) && error == CertificateError::MalformedWire,
            },
    {
        if bytes.len() != ENDPOINT_PAYLOAD_LEN + SIGNATURE_LEN {
            return Err(CertificateError::MalformedWire);
        }
        let signed_payload: Vec<u8> = copy_range(bytes, 0, ENDPOINT_PAYLOAD_LEN);
        match decode_endpoint_payload(signed_payload.as_slice()) {
            Some(payload) => {
                let signature: [u8; 64] = read_array::<64>(bytes, ENDPOINT_PAYLOAD_LEN);
                proof {
                    law_endpoint_canonical(signed_payload@);
                }
                Ok(EndpointBinding { payload, signed_payload, signature })
            },
            None => Err(CertificateError::MalformedWire),
        }
    }

    /// The exact bytes: the payload as signed, then the signature.
    pub fn to_bytes(&self) -> (bytes: Vec<u8>)
        ensures
            bytes@ == signed_endpoint_bytes(self@),
    {
        proof {
            use_type_invariant(self);
        }
        append_signature(self.signed_payload.as_slice(), &self.signature)
    }

    pub fn payload(&self) -> (payload: &EndpointBindingPayload)
        ensures
            *payload == self@.payload,
    {
        &self.payload
    }

    /// Claims an endpoint for an admitted member, if the key is the member's.
    pub fn issue(
        member_key: &SigningKeypair,
        member: &MemberCertificatePayload,
        endpoint_id: [u8; 32],
        sequence: u64,
        expires_at_ms: u64,
    ) -> (issued: Result<Self, CertificateError>)
        ensures
            if outside::ed25519_public(member_key@) != member.signing_public_key@ {
                issued matches Err(error) && error == CertificateError::KeyMismatch
            } else {
                issued matches Ok(c) && c@.payload == (EndpointBindingPayload {
                    network_id: member.network_id,
                    member_id: member.member_id,
                    endpoint_id,
                    sequence,
                    expires_at_ms,
                }) && c@.signature@ == outside::ed25519_signature(
                    member_key@,
                    endpoint_bytes(c@.payload),
                ) && outside::ed25519_verifies(
                    member.signing_public_key@,
                    endpoint_bytes(c@.payload),
                    c@.signature@,
                ) && outside::ed25519_key_ok(member.signing_public_key@)
            },
    {
        if !arrays_equal(&member_key.public_bytes(), &member.signing_public_key) {
            return Err(CertificateError::KeyMismatch);
        }
        let payload = EndpointBindingPayload {
            network_id: member.network_id,
            member_id: member.member_id,
            endpoint_id,
            sequence,
            expires_at_ms,
        };
        let signed_payload: Vec<u8> = encode_endpoint_payload(&payload);
        let signature: [u8; 64] = member_key.sign(signed_payload.as_slice());
        Ok(EndpointBinding { payload, signed_payload, signature })
    }

    /// Claims an endpoint for someone who asks to join, under the identity their key will have.
    pub fn issue_for_join(
        member_key: &SigningKeypair,
        network_id: NetworkId,
        endpoint_id: [u8; 32],
        sequence: u64,
        expires_at_ms: u64,
    ) -> (issued: Result<Self, CertificateError>)
        ensures
            if endpoint_id@ == wire::zeros(32) {
                issued matches Err(error) && error == CertificateError::MalformedKey
            } else {
                issued matches Ok(c) && c@.payload == (EndpointBindingPayload {
                    network_id,
                    member_id: keys::member_id_of(network_id, outside::ed25519_public(member_key@)),
                    endpoint_id,
                    sequence,
                    expires_at_ms,
                }) && c@.signature@ == outside::ed25519_signature(
                    member_key@,
                    endpoint_bytes(c@.payload),
                ) && outside::ed25519_verifies(
                    outside::ed25519_public(member_key@),
                    endpoint_bytes(c@.payload),
                    c@.signature@,
                )
            },
    {
        if is_zero(&endpoint_id) {
            return Err(CertificateError::MalformedKey);
        }
        let payload = EndpointBindingPayload {
            network_id,
            member_id: derive_member_id(network_id, &member_key.public_bytes()),
            endpoint_id,
            sequence,
            expires_at_ms,
        };
        let signed_payload: Vec<u8> = encode_endpoint_payload(&payload);
        let signature: [u8; 64] = member_key.sign(signed_payload.as_slice());
        Ok(EndpointBinding { payload, signed_payload, signature })
    }

    /// Checks that a member claims exactly this endpoint.
    pub fn verify(
        &self,
        member: &VerifiedMember,
        expected_network: NetworkId,
        expected_endpoint: [u8; 32],
        now_ms: u64,
    ) -> (valid: Result<(), CertificateError>)
        ensures
            valid == endpoint_verdict(self@, member@, expected_network, expected_endpoint, now_ms),
    {
        proof {
            use_type_invariant(self);
        }
        let claimed: &MemberCertificatePayload = member.payload();
        if self.payload.network_id != expected_network || claimed.network_id != expected_network {
            return Err(CertificateError::WrongNetwork);
        }
        if self.payload.member_id != claimed.member_id || !arrays_equal(
            &self.payload.endpoint_id,
            &expected_endpoint,
        ) {
            return Err(CertificateError::BindingMismatch);
        }
        if now_ms >= self.payload.expires_at_ms {
            return Err(CertificateError::Expired);
        }
        if !verifying_key_ok(&claimed.signing_public_key) {
            return Err(CertificateError::MalformedKey);
        }
        verify_signature(
            &claimed.signing_public_key,
            self.signed_payload.as_slice(),
            &self.signature,
        )
    }

    /// Checks that whoever asks to join claims the endpoint of their request.
    pub fn verify_for_join(
        &self,
        request: &VerifiedJoinRequest,
        expected_network: NetworkId,
        now_ms: u64,
    ) -> (valid: Result<(), CertificateError>)
        ensures
            valid == endpoint_join_verdict(self@, request@, expected_network, now_ms),
    {
        proof {
            use_type_invariant(self);
        }
        let asked: &JoinRequestPayload = request.payload();
        if self.payload.network_id != expected_network || asked.network_id != expected_network {
            return Err(CertificateError::WrongNetwork);
        }
        if self.payload.member_id != asked.member_id || !arrays_equal(
            &self.payload.endpoint_id,
            &asked.endpoint_id,
        ) || self.payload.sequence != 0 || self.payload.expires_at_ms != asked.expires_at_ms {
            return Err(CertificateError::BindingMismatch);
        }
        if now_ms >= self.payload.expires_at_ms {
            return Err(CertificateError::Expired);
        }
        if !verifying_key_ok(&asked.signing_public_key) {
            return Err(CertificateError::MalformedKey);
        }
        verify_signature(&asked.signing_public_key, self.signed_payload.as_slice(), &self.signature)
    }
}

/// A binding is good for the one member and the one endpoint it names, and for no other.
pub proof fn law_endpoint_binding_cannot_be_retargeted(
    c: Signed<EndpointBindingPayload>,
    member: MemberCertificatePayload,
    network: NetworkId,
    endpoint_id: [u8; 32],
    now_ms: u64,
)
    requires
        endpoint_verdict(c, member, network, endpoint_id, now_ms) is Ok,
    ensures
        c.payload.endpoint_id == endpoint_id,
        c.payload.member_id == member.member_id,
        forall|other: [u8; 32]|
            other != endpoint_id ==> #[trigger] endpoint_verdict(c, member, network, other, now_ms)
                == Err::<(), CertificateError>(CertificateError::BindingMismatch),
        forall|other: NetworkId|
            other != network ==> #[trigger] endpoint_verdict(c, member, other, endpoint_id, now_ms)
                == Err::<(), CertificateError>(CertificateError::WrongNetwork),
{
}

} // verus!
