//! Certificates that admit members to a network.
use crate::crypto::admin;
use crate::crypto::admin::{AdminCertificatePayload, VerifiedAdmin, ADMIN_PERMISSION_ISSUE_MEMBER};
use crate::crypto::keys;
use crate::crypto::keys::{
    append_signature, derive_member_id, presence_signature_transcript, validate_time,
    verify_signature, CertificateError, NetworkRootKey, NetworkRootPublic, OnlineAdminKey, Signed,
    SIGNATURE_LEN,
};
use crate::identifiers::{MemberId, NetworkId};
use crate::outside;
use crate::outside::verifying_key_ok;
use crate::wire;
use crate::wire::{
    arrays_equal, copy_range, push_be, push_bytes, read_array, read_u32, read_u64, starts_at,
};
use std::collections::HashSet;
use vstd::prelude::*;

verus! {

/// A set of roles that a member may fill.
#[derive(Clone, Copy, Debug, PartialEq, Eq, Structural)]
pub struct MemberRoles(pub u32);

impl MemberRoles {
    /// Takes part in the network.
    pub fn member() -> (roles: Self)
        ensures
            roles == MemberRoles(1),
    {
        MemberRoles(1)
    }

    /// Offers application services.
    pub fn service() -> (roles: Self)
        ensures
            roles == MemberRoles(2),
    {
        MemberRoles(2)
    }

    /// Relays traffic.
    pub fn relay() -> (roles: Self)
        ensures
            roles == MemberRoles(4),
    {
        MemberRoles(4)
    }

    /// Admits new members.
    pub fn bootstrap() -> (roles: Self)
        ensures
            roles == MemberRoles(8),
    {
        MemberRoles(8)
    }

    /// Signs configuration.
    pub fn authority() -> (roles: Self)
        ensures
            roles == MemberRoles(16),
    {
        MemberRoles(16)
    }

    pub fn from_bits(bits: u32) -> (roles: Self)
        ensures
            roles == MemberRoles(bits),
    {
        MemberRoles(bits)
    }

    pub fn bits(self) -> (bits: u32)
        ensures
            bits == self.0,
    {
        self.0
    }

    /// The roles in either set.
    pub fn union(self, other: Self) -> (both: Self)
        ensures
            both == MemberRoles(self.0 | other.0),
    {
        MemberRoles(self.0 | other.0)
    }

    /// Whether every role of `other` is in this set.
    pub fn contains(self, other: Self) -> (held: bool)
        ensures
            held == (self.0 & other.0 == other.0),
    {
        self.0 & other.0 == other.0
    }
}

/// A union of role sets holds each of them and whatever either of them holds, and does not depend
/// on their order.
pub proof fn law_roles_union(a: u32, b: u32, c: u32)
    ensures
        (a | b) & a == a,
        (a | b) & b == b,
        a | b == b | a,
        a & c == c ==> (a | b) & c == c,
        a | a == a,
{
    assert((a | b) & a == a) by (bit_vector);
    assert((a | b) & b == b) by (bit_vector);
    assert(a | b == b | a) by (bit_vector);
    assert(a & c == c ==> (a | b) & c == c) by (bit_vector);
    assert(a | a == a) by (bit_vector);
}

/// What an issuer says of a member.
#[derive(Clone, Copy, Debug, PartialEq, Eq)]
pub struct MemberCertificatePayload {
    pub network_id: NetworkId,
    pub member_id: MemberId,
    pub signing_public_key: [u8; 32],
    pub encryption_public_key: [u8; 32],
    pub roles: MemberRoles,
    pub serial: u64,
    pub not_before_ms: u64,
    pub expires_at_ms: u64,
    pub issuer_key_id: [u8; 16],
}

/// The first bytes of a member certificate.
pub const MEMBER_MAGIC: [u8; 8] = [87, 86, 82, 77, 69, 77, 0, 1];

/// The length of a member certificate, without its signature.
pub const MEMBER_PAYLOAD_LEN: usize = 180;

/// The encoding of a member certificate: its fields in order, numbers big-endian.
pub open spec fn member_bytes(p: MemberCertificatePayload) -> Seq<u8> {
    MEMBER_MAGIC@ + p.network_id@ + p.member_id@ + p.signing_public_key@ + p.encryption_public_key@ + wire::be(p.roles.0 as nat, 4) + wire::be(p.serial as nat, 8) + wire::be(p.not_before_ms as nat, 8) + wire::be(p.expires_at_ms as nat, 8) + p.issuer_key_id@
}

/// The value whose encoding is `b`, if there is one.
pub open spec fn read_member(b: Seq<u8>) -> Option<MemberCertificatePayload> {
    if b.len() == MEMBER_PAYLOAD_LEN && wire::has_at(b, 0, MEMBER_MAGIC@) {
        Some(
            MemberCertificatePayload {
                network_id: NetworkId(wire::array_at::<32>(b, 8)),
                member_id: MemberId(wire::array_at::<32>(b, 40)),
                signing_public_key: wire::array_at::<32>(b, 72),
                encryption_public_key: wire::array_at::<32>(b, 104),
                roles: MemberRoles(wire::u32_at(b, 136)),
                serial: wire::u64_at(b, 140),
                not_before_ms: wire::u64_at(b, 148),
                expires_at_ms: wire::u64_at(b, 156),
                issuer_key_id: wire::array_at::<16>(b, 164),
            },
        )
    } else {
        None
    }
}

/// Encoding a member certificate and reading it back gives the same value.
pub proof fn law_member_round_trip(p: MemberCertificatePayload)
    ensures
        read_member(member_bytes(p)) == Some(p),
        member_bytes(p).len() == MEMBER_PAYLOAD_LEN,
{
    let b = member_bytes(p);
    wire::lemma_pow256_values();
    wire::lemma_array_of(p.network_id.0);
    wire::lemma_array_of(p.member_id.0);
    wire::lemma_array_of(p.signing_public_key);
    wire::lemma_array_of(p.encryption_public_key);
    wire::lemma_from_be_of_be(p.roles.0 as nat, 4);
    wire::lemma_from_be_of_be(p.serial as nat, 8);
    wire::lemma_from_be_of_be(p.not_before_ms as nat, 8);
    wire::lemma_from_be_of_be(p.expires_at_ms as nat, 8);
    wire::lemma_array_of(p.issuer_key_id);
    assert(b.subrange(0, 8) =~= MEMBER_MAGIC@);
    assert(b.subrange(8, 40) =~= p.network_id@);
    assert(b.subrange(40, 72) =~= p.member_id@);
    assert(b.subrange(72, 104) =~= p.signing_public_key@);
    assert(b.subrange(104, 136) =~= p.encryption_public_key@);
    assert(b.subrange(136, 140) =~= wire::be(p.roles.0 as nat, 4));
    assert(b.subrange(140, 148) =~= wire::be(p.serial as nat, 8));
    assert(b.subrange(148, 156) =~= wire::be(p.not_before_ms as nat, 8));
    assert(b.subrange(156, 164) =~= wire::be(p.expires_at_ms as nat, 8));
    assert(b.subrange(164, 180) =~= p.issuer_key_id@);
}

/// Only one sequence of bytes reads as a given member payload: its encoding.
pub proof fn law_member_canonical(b: Seq<u8>)
    ensures
        read_member(b) matches Some(p) ==> member_bytes(p) == b,
{
    if b.len() == MEMBER_PAYLOAD_LEN && wire::has_at(b, 0, MEMBER_MAGIC@) {
        let p = read_member(b)->0;
        wire::lemma_pow256_values();
        wire::lemma_array_exists::<32>(b.subrange(8, 40));
        wire::lemma_array_exists::<32>(b.subrange(40, 72));
        wire::lemma_array_exists::<32>(b.subrange(72, 104));
        wire::lemma_array_exists::<32>(b.subrange(104, 136));
        wire::lemma_be_of_from_be(b.subrange(136, 140));
        wire::lemma_be_of_from_be(b.subrange(140, 148));
        wire::lemma_be_of_from_be(b.subrange(148, 156));
        wire::lemma_be_of_from_be(b.subrange(156, 164));
        wire::lemma_array_exists::<16>(b.subrange(164, 180));
        assert(member_bytes(p) == b.subrange(0, 8) + b.subrange(8, 40) + b.subrange(40, 72) + b.subrange(72, 104) + b.subrange(104, 136) + b.subrange(136, 140) + b.subrange(140, 148) + b.subrange(148, 156) + b.subrange(156, 164) + b.subrange(164, 180));
        assert(member_bytes(p) =~= b);
    }
}

fn encode_member_payload(payload: &MemberCertificatePayload) -> (bytes: Vec<u8>)
    ensures
        bytes@ == member_bytes(*payload),
{
    let mut out: Vec<u8> = Vec::new();
    push_bytes(&mut out, MEMBER_MAGIC.as_slice());
    push_bytes(&mut out, payload.network_id.as_bytes().as_slice());
    push_bytes(&mut out, payload.member_id.as_bytes().as_slice());
    push_bytes(&mut out, payload.signing_public_key.as_slice());
    push_bytes(&mut out, payload.encryption_public_key.as_slice());
    push_be(&mut out, payload.roles.bits() as u64, 4);
    push_be(&mut out, payload.serial, 8);
    push_be(&mut out, payload.not_before_ms, 8);
    push_be(&mut out, payload.expires_at_ms, 8);
    push_bytes(&mut out, payload.issuer_key_id.as_slice());
    assert(out@ =~= member_bytes(*payload));
    out
}

fn decode_member_payload(bytes: &[u8]) -> (payload: Option<MemberCertificatePayload>)
    ensures
        payload == read_member(bytes@),
{
    if bytes.len() != MEMBER_PAYLOAD_LEN || !starts_at(bytes, 0, MEMBER_MAGIC.as_slice()) {
        return None;
    }
    Some(
        MemberCertificatePayload {
            network_id: NetworkId::from_bytes(read_array::<32>(bytes, 8)),
            member_id: MemberId::from_bytes(read_array::<32>(bytes, 40)),
            signing_public_key: read_array::<32>(bytes, 72),
            encryption_public_key: read_array::<32>(bytes, 104),
            roles: MemberRoles::from_bits(read_u32(bytes, 136)),
            serial: read_u64(bytes, 140),
            not_before_ms: read_u64(bytes, 148),
            expires_at_ms: read_u64(bytes, 156),
            issuer_key_id: read_array::<16>(bytes, 164),
        },
    )
}

/// The signed value that `b` encodes: the payload, then the signature.
pub open spec fn read_signed_member(b: Seq<u8>) -> Option<Signed<MemberCertificatePayload>> {
    if b.len() == MEMBER_PAYLOAD_LEN + SIGNATURE_LEN {
        match read_member(b.subrange(0, MEMBER_PAYLOAD_LEN as int)) {
            Some(payload) => Some(
                Signed { payload, signature: wire::array_at::<64>(b, MEMBER_PAYLOAD_LEN as int) },
            ),
            None => None,
        }
    } else {
        None
    }
}

/// The encoding of a signed value.
pub open spec fn signed_member_bytes(c: Signed<MemberCertificatePayload>) -> Seq<u8> {
    member_bytes(c.payload) + c.signature@
}

/// Encoding a signed value and reading it back gives the same value.
pub proof fn law_signed_member_round_trip(c: Signed<MemberCertificatePayload>)
    ensures
        read_signed_member(signed_member_bytes(c)) == Some(c),
{
    let b = signed_member_bytes(c);
    law_member_round_trip(c.payload);
    wire::lemma_array_of(c.signature);
    assert(b.subrange(0, MEMBER_PAYLOAD_LEN as int) =~= member_bytes(c.payload));
    assert(b.subrange(MEMBER_PAYLOAD_LEN as int, MEMBER_PAYLOAD_LEN + 64) =~= c.signature@);
}

/// Only one sequence of bytes reads as a given signed value: its encoding.
pub proof fn law_signed_member_canonical(b: Seq<u8>)
    ensures
        read_signed_member(b) matches Some(c) ==> signed_member_bytes(c) == b,
{
    if read_signed_member(b) is Some {
        let c = read_signed_member(b)->0;
        law_member_canonical(b.subrange(0, MEMBER_PAYLOAD_LEN as int));
        wire::lemma_array_exists::<64>(b.subrange(MEMBER_PAYLOAD_LEN as int, MEMBER_PAYLOAD_LEN + 64));
        assert(signed_member_bytes(c) =~= b);
    }
}

/// A signed admission of one member to one network.
#[derive(Debug, PartialEq, Eq)]
pub struct MemberCertificate {
    payload: MemberCertificatePayload,
    signed_payload: Vec<u8>,
    signature: [u8; 64],
}

impl View for MemberCertificate {
    type V = Signed<MemberCertificatePayload>;

    closed spec fn view(&self) -> Signed<MemberCertificatePayload> {
        Signed { payload: self.payload, signature: self.signature }
    }
}

impl Clone for MemberCertificate {
    fn clone(&self) -> (copy: Self)
        ensures
            copy@ == self@,
    {
        proof {
            use_type_invariant(self);
        }
        let mut signed_payload: Vec<u8> = Vec::new();
        push_bytes(&mut signed_payload, self.signed_payload.as_slice());
        assert(signed_payload@ =~= self.signed_payload@);
        MemberCertificate { payload: self.payload, signed_payload, signature: self.signature }
    }
}

/// What an issuer writes into a member certificate.
pub open spec fn member_issued(
    network: NetworkId,
    issuer_key_id: [u8; 16],
    signing_public_key: [u8; 32],
    encryption_public_key: [u8; 32],
    roles: MemberRoles,
    serial: u64,
    not_before_ms: u64,
    expires_at_ms: u64,
) -> MemberCertificatePayload {
    MemberCertificatePayload {
        network_id: network,
        member_id: keys::member_id_of(network, signing_public_key@),
        signing_public_key,
        encryption_public_key,
        roles,
        serial,
        not_before_ms,
        expires_at_ms,
        issuer_key_id,
    }
}

/// What becomes of a member certificate that is checked against the root key `root`: the payload,
/// or the first of these reasons that applies.
pub open spec fn member_verdict(
    c: Signed<MemberCertificatePayload>,
    root: Seq<u8>,
    network: NetworkId,
    now_ms: u64,
    revoked: Set<u64>,
) -> Result<MemberCertificatePayload, CertificateError> {
    let p = c.payload;
    if keys::network_id_of(root) != network || p.network_id != network {
        Err(CertificateError::WrongNetwork)
    } else if p.issuer_key_id != keys::root_key_id(root) {
        Err(CertificateError::WrongIssuer)
    } else if keys::member_id_of(network, p.signing_public_key@) != p.member_id {
        Err(CertificateError::DerivedIdentityMismatch)
    } else if now_ms < p.not_before_ms {
        Err(CertificateError::NotYetValid)
    } else if now_ms >= p.expires_at_ms {
        Err(CertificateError::Expired)
    } else if revoked.contains(p.serial) {
        Err(CertificateError::Revoked)
    } else if !outside::ed25519_verifies(root, member_bytes(p), c.signature@) {
        Err(CertificateError::InvalidSignature)
    } else {
        Ok(p)
    }
}

/// What becomes of a member certificate that is checked against an administrator: the payload, or
/// the first of these reasons that applies.
pub open spec fn member_admin_verdict(
    c: Signed<MemberCertificatePayload>,
    issuer: AdminCertificatePayload,
    network: NetworkId,
    now_ms: u64,
    revoked: Set<u64>,
) -> Result<MemberCertificatePayload, CertificateError> {
    let p = c.payload;
    if issuer.network_id != network || p.network_id != network {
        Err(CertificateError::WrongNetwork)
    } else if !admin::permits(issuer.permissions, ADMIN_PERMISSION_ISSUE_MEMBER) {
        Err(CertificateError::PermissionDenied)
    } else if p.issuer_key_id != issuer.key_id {
        Err(CertificateError::WrongIssuer)
    } else if p.not_before_ms < issuer.not_before_ms || p.expires_at_ms > issuer.expires_at_ms {
        Err(CertificateError::InvalidValidityWindow)
    } else if keys::member_id_of(network, p.signing_public_key@) != p.member_id {
        Err(CertificateError::DerivedIdentityMismatch)
    } else if now_ms < p.not_before_ms {
        Err(CertificateError::NotYetValid)
    } else if now_ms >= p.expires_at_ms {
        Err(CertificateError::Expired)
    } else if revoked.contains(p.serial) {
        Err(CertificateError::Revoked)
    } else if !outside::ed25519_verifies(issuer.public_key@, member_bytes(p), c.signature@) {
        Err(CertificateError::InvalidSignature)
    } else {
        Ok(p)
    }
}

/// Why the holder of the administrator secret `secret` may not issue a member certificate for
/// this window under the certificate `issuer`, if anything stands against it.
pub open spec fn member_issue_refusal(
    secret: Seq<u8>,
    issuer: AdminCertificatePayload,
    not_before_ms: u64,
    expires_at_ms: u64,
) -> Option<CertificateError> {
    let public = outside::ed25519_public(secret);
    if public != issuer.public_key@ || keys::admin_key_id(public) != issuer.key_id {
        Some(CertificateError::KeyMismatch)
    } else if !admin::permits(issuer.permissions, ADMIN_PERMISSION_ISSUE_MEMBER) {
        Some(CertificateError::PermissionDenied)
    } else if expires_at_ms <= not_before_ms || not_before_ms < issuer.not_before_ms
        || expires_at_ms > issuer.expires_at_ms {
        Some(CertificateError::InvalidValidityWindow)
    } else {
        None
    }
}

impl MemberCertificate {
    #[verifier::type_invariant]
    spec fn well_formed(self) -> bool {
        self.signed_payload@ == member_bytes(self.payload)
    }

    /// Reads exactly the encodings of signed values.
    pub fn from_bytes(bytes: &[u8]) -> (signed: Result<Self, CertificateError>)
        ensures
            match read_signed_member(bytes@) {
                Some(value) => signed matches Ok(signed) && signed@ == value,
                None => signed matches Err(error) && error == CertificateError::MalformedWire,
            },
    {
        if bytes.len() != MEMBER_PAYLOAD_LEN + SIGNATURE_LEN {
            return Err(CertificateError::MalformedWire);
        }
        let signed_payload: Vec<u8> = copy_range(bytes, 0, MEMBER_PAYLOAD_LEN);
        match decode_member_payload(signed_payload.as_slice()) {
            Some(payload) => {
                let signature: [u8; 64] = read_array::<64>(bytes, MEMBER_PAYLOAD_LEN);
                proof {
                    law_member_canonical(signed_payload@);
                }
                Ok(MemberCertificate { payload, signed_payload, signature })
            },
            None => Err(CertificateError::MalformedWire),
        }
    }

    /// The exact bytes: the payload as signed, then the signature.
    pub fn to_bytes(&self) -> (bytes: Vec<u8>)
        ensures
            bytes@ == signed_member_bytes(self@),
    {
        proof {
            use_type_invariant(self);
        }
        append_signature(self.signed_payload.as_slice(), &self.signature)
    }

    pub fn payload(&self) -> (payload: &MemberCertificatePayload)
        ensures
            *payload == self@.payload,
    {
        &self.payload
    }

    /// Admits a member on the root's own authority, if the window is not empty.
    pub fn issue(
        root: &NetworkRootKey,
        member_signing_public: [u8; 32],
        encryption_public_key: [u8; 32],
        roles: MemberRoles,
        serial: u64,
        not_before_ms: u64,
        expires_at_ms: u64,
    ) -> (issued: Result<Self, CertificateError>)
        ensures
            if expires_at_ms <= not_before_ms {
                issued matches Err(error) && error == CertificateError::InvalidValidityWindow
            } else {
                let root_key = outside::ed25519_public(root@);
                issued matches Ok(c) && c@.payload == member_issued(
                    keys::network_id_of(root_key),
                    keys::root_key_id(root_key),
                    member_signing_public,
                    encryption_public_key,
                    roles,
                    serial,
                    not_before_ms,
                    expires_at_ms,
                ) && c@.signature@ == outside::ed25519_signature(root@, member_bytes(c@.payload))
                    && outside::ed25519_verifies(root_key, member_bytes(c@.payload), c@.signature@)
            },
    {
        if expires_at_ms <= not_before_ms {
            return Err(CertificateError::InvalidValidityWindow);
        }
        let root_public: NetworkRootPublic = root.public();
        let payload = MemberCertificatePayload {
            network_id: root_public.network_id(),
            member_id: derive_member_id(root_public.network_id(), &member_signing_public),
            signing_public_key: member_signing_public,
            encryption_public_key,
            roles,
            serial,
            not_before_ms,
            expires_at_ms,
            issuer_key_id: root_public.key_id(),
        };
        let signed_payload: Vec<u8> = encode_member_payload(&payload);
        let signature: [u8; 64] = root.sign_bytes(signed_payload.as_slice());
        Ok(MemberCertificate { payload, signed_payload, signature })
    }

    /// Admits a member on an online administrator's authority, within the administrator's own
    /// window and permissions.
    pub fn issue_by_admin(
        admin: &OnlineAdminKey,
        admin_certificate: &AdminCertificatePayload,
        member_signing_public: [u8; 32],
        encryption_public_key: [u8; 32],
        roles: MemberRoles,
        serial: u64,
        not_before_ms: u64,
        expires_at_ms: u64,
    ) -> (issued: Result<Self, CertificateError>)
        ensures
            match member_issue_refusal(admin@, *admin_certificate, not_before_ms, expires_at_ms) {
                Some(reason) => issued matches Err(error) && error == reason,
                None => issued matches Ok(c) && c@.payload == member_issued(
                    admin_certificate.network_id,
                    admin_certificate.key_id,
                    member_signing_public,
                    encryption_public_key,
                    roles,
                    serial,
                    not_before_ms,
                    expires_at_ms,
                ) && c@.signature@ == outside::ed25519_signature(admin@, member_bytes(c@.payload))
                    && outside::ed25519_verifies(
                    admin_certificate.public_key@,
                    member_bytes(c@.payload),
                    c@.signature@,
                ),
            },
    {
        if !arrays_equal(&admin.public_bytes(), &admin_certificate.public_key) || !arrays_equal(
            &admin.key_id(),
            &admin_certificate.key_id,
        ) {
            return Err(CertificateError::KeyMismatch);
        }
        if admin_certificate.permissions & ADMIN_PERMISSION_ISSUE_MEMBER == 0 {
            return Err(CertificateError::PermissionDenied);
        }
        if expires_at_ms <= not_before_ms || not_before_ms < admin_certificate.not_before_ms
            || expires_at_ms > admin_certificate.expires_at_ms {
            return Err(CertificateError::InvalidValidityWindow);
        }
        let payload = MemberCertificatePayload {
            network_id: admin_certificate.network_id,
            member_id: derive_member_id(admin_certificate.network_id, &member_signing_public),
            signing_public_key: member_signing_public,
            encryption_public_key,
            roles,
            serial,
            not_before_ms,
            expires_at_ms,
            issuer_key_id: admin_certificate.key_id,
        };
        let signed_payload: Vec<u8> = encode_member_payload(&payload);
        let signature: [u8; 64] = admin.sign_bytes(signed_payload.as_slice());
        Ok(MemberCertificate { payload, signed_payload, signature })
    }

    /// Checks the member's signature over a runtime presence payload. The certificate itself is
    /// one that a validated configuration holds.
    pub fn verify_presence(&self, exact_payload: &[u8], signature: &[u8; 64]) -> (valid: Result<
        (),
        CertificateError,
    >)
        ensures
            valid == (if !outside::ed25519_key_ok(self@.payload.signing_public_key@) {
                Err(CertificateError::MalformedKey)
            } else if outside::ed25519_verifies(
                self@.payload.signing_public_key@,
                keys::presence_transcript(exact_payload@),
                signature@,
            ) {
                Ok(())
            } else {
                Err::<(), CertificateError>(CertificateError::InvalidSignature)
            }),
    {
        if !verifying_key_ok(&self.payload.signing_public_key) {
            return Err(CertificateError::MalformedKey);
        }
        let transcript: Vec<u8> = presence_signature_transcript(exact_payload);
        verify_signature(&self.payload.signing_public_key, transcript.as_slice(), signature)
    }

    /// Checks a certificate that the root issued.
    pub fn verify(
        &self,
        root: &NetworkRootPublic,
        expected_network: NetworkId,
        now_ms: u64,
        revoked_serials: &HashSet<u64>,
    ) -> (verified: Result<VerifiedMember, CertificateError>)
        ensures
            match member_verdict(self@, root@, expected_network, now_ms, revoked_serials@) {
                Ok(payload) => verified matches Ok(member) && member@ == payload,
                Err(reason) => verified matches Err(error) && error == reason,
            },
    {
        proof {
            use_type_invariant(self);
        }
        if root.network_id() != expected_network || self.payload.network_id != expected_network {
            return Err(CertificateError::WrongNetwork);
        }
        if !arrays_equal(&self.payload.issuer_key_id, &root.key_id()) {
            return Err(CertificateError::WrongIssuer);
        }
        if derive_member_id(expected_network, &self.payload.signing_public_key)
            != self.payload.member_id {
            return Err(CertificateError::DerivedIdentityMismatch);
        }
        match validate_time(self.payload.not_before_ms, self.payload.expires_at_ms, now_ms) {
            Ok(()) => {},
            Err(error) => {
                return Err(error);
            },
        }
        if revoked_serials.contains(&self.payload.serial) {
            return Err(CertificateError::Revoked);
        }
        match root.verify_bytes(self.signed_payload.as_slice(), &self.signature) {
            Ok(()) => Ok(VerifiedMember(self.payload)),
            Err(error) => Err(error),
        }
    }

    /// Checks a certificate that an online administrator issued.
    pub fn verify_with_admin(
        &self,
        admin: &VerifiedAdmin,
        expected_network: NetworkId,
        now_ms: u64,
        revoked_serials: &HashSet<u64>,
    ) -> (verified: Result<VerifiedMember, CertificateError>)
        ensures
            match member_admin_verdict(self@, admin@, expected_network, now_ms, revoked_serials@) {
                Ok(payload) => verified matches Ok(member) && member@ == payload,
                Err(reason) => verified matches Err(error) && error == reason,
            },
    {
        proof {
            use_type_invariant(self);
        }
        let issuer: &AdminCertificatePayload = admin.payload();
        if issuer.network_id != expected_network || self.payload.network_id != expected_network {
            return Err(CertificateError::WrongNetwork);
        }
        if issuer.permissions & ADMIN_PERMISSION_ISSUE_MEMBER == 0 {
            return Err(CertificateError::PermissionDenied);
        }
        if !arrays_equal(&self.payload.issuer_key_id, &issuer.key_id) {
            return Err(CertificateError::WrongIssuer);
        }
        if self.payload.not_before_ms < issuer.not_before_ms || self.payload.expires_at_ms
            > issuer.expires_at_ms {
            return Err(CertificateError::InvalidValidityWindow);
        }
        if derive_member_id(expected_network, &self.payload.signing_public_key)
            != self.payload.member_id {
            return Err(CertificateError::DerivedIdentityMismatch);
        }
        match validate_time(self.payload.not_before_ms, self.payload.expires_at_ms, now_ms) {
            Ok(()) => {},
            Err(error) => {
                return Err(error);
            },
        }
        if revoked_serials.contains(&self.payload.serial) {
            return Err(CertificateError::Revoked);
        }
        match admin.verify_bytes(self.signed_payload.as_slice(), &self.signature) {
            Ok(()) => Ok(VerifiedMember(self.payload)),
            Err(error) => Err(error),
        }
    }
}

/// A member whose certificate was checked. Its view is the certificate's payload.
#[derive(Clone, Copy, Debug)]
pub struct VerifiedMember(MemberCertificatePayload);

impl View for VerifiedMember {
    type V = MemberCertificatePayload;

    closed spec fn view(&self) -> MemberCertificatePayload {
        self.0
    }
}

impl VerifiedMember {
    pub fn payload(&self) -> (payload: &MemberCertificatePayload)
        ensures
            *payload == self@,
    {
        &self.0
    }
}

/// A certificate that the root issued is accepted under that root, throughout its window, by
/// everyone who has not revoked its serial.
pub proof fn law_member_issue_then_verify(
    root: Seq<u8>,
    c: Signed<MemberCertificatePayload>,
    signing_public_key: [u8; 32],
    encryption_public_key: [u8; 32],
    roles: MemberRoles,
    serial: u64,
    not_before_ms: u64,
    expires_at_ms: u64,
    now_ms: u64,
    revoked: Set<u64>,
)
    requires
        c.payload == member_issued(
            keys::network_id_of(outside::ed25519_public(root)),
            keys::root_key_id(outside::ed25519_public(root)),
            signing_public_key,
            encryption_public_key,
            roles,
            serial,
            not_before_ms,
            expires_at_ms,
        ),
        outside::ed25519_verifies(
            outside::ed25519_public(root),
            member_bytes(c.payload),
            c.signature@,
        ),
        not_before_ms <= now_ms < expires_at_ms,
        !revoked.contains(serial),
    ensures
        member_verdict(
            c,
            outside::ed25519_public(root),
            c.payload.network_id,
            now_ms,
            revoked,
        ) == Ok::<MemberCertificatePayload, CertificateError>(c.payload),
{
}

/// A certificate that an administrator was allowed to issue is accepted under that administrator,
/// throughout its window, by everyone who has not revoked its serial.
pub proof fn law_member_issue_by_admin_then_verify(
    secret: Seq<u8>,
    issuer: AdminCertificatePayload,
    c: Signed<MemberCertificatePayload>,
    signing_public_key: [u8; 32],
    encryption_public_key: [u8; 32],
    roles: MemberRoles,
    serial: u64,
    not_before_ms: u64,
    expires_at_ms: u64,
    now_ms: u64,
    revoked: Set<u64>,
)
    requires
        member_issue_refusal(secret, issuer, not_before_ms, expires_at_ms) is None,
        c.payload == member_issued(
            issuer.network_id,
            issuer.key_id,
            signing_public_key,
            encryption_public_key,
            roles,
            serial,
            not_before_ms,
            expires_at_ms,
        ),
        outside::ed25519_verifies(issuer.public_key@, member_bytes(c.payload), c.signature@),
        not_before_ms <= now_ms < expires_at_ms,
        !revoked.contains(serial),
    ensures
        member_admin_verdict(c, issuer, issuer.network_id, now_ms, revoked) == Ok::<
            MemberCertificatePayload,
            CertificateError,
        >(c.payload),
{
}

/// An accepted member certificate never outlives the administrator certificate it rests on.
pub proof fn law_member_within_admin_window(
    c: Signed<MemberCertificatePayload>,
    issuer: AdminCertificatePayload,
    network: NetworkId,
    now_ms: u64,
    revoked: Set<u64>,
)
    requires
        member_admin_verdict(c, issuer, network, now_ms, revoked) is Ok,
    ensures
        issuer.not_before_ms <= c.payload.not_before_ms <= now_ms,
        now_ms < c.payload.expires_at_ms <= issuer.expires_at_ms,
        outside::ed25519_verifies(issuer.public_key@, member_bytes(c.payload), c.signature@),
        c.payload.member_id == keys::member_id_of(network, c.payload.signing_public_key@),
{
}

} // verus!
