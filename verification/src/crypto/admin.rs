//! Certificates by which the network root authorizes online administrators.
use crate::crypto::keys;
use crate::crypto::keys::{
    append_signature, derive_admin_key_id, validate_time, verify_signature, CertificateError,
    NetworkRootKey, NetworkRootPublic, Signed, SIGNATURE_LEN,
};
use crate::identifiers::NetworkId;
use crate::outside;
use crate::outside::verifying_key_ok;
use crate::wire;
use crate::wire::{
    arrays_equal, copy_range, push_be, push_bytes, read_array, read_u32, read_u64, starts_at,
};
use std::collections::HashSet;
use vstd::prelude::*;

verus! {

/// May commit configuration revisions.
pub const ADMIN_PERMISSION_CONFIG_WRITE: u32 = 1;

/// May issue member certificates.
pub const ADMIN_PERMISSION_ISSUE_MEMBER: u32 = 2;

/// May revoke member certificates.
pub const ADMIN_PERMISSION_REVOKE: u32 = 4;

/// May register applications.
pub const ADMIN_PERMISSION_REGISTER_APP: u32 = 8;

/// Every permission.
pub const ADMIN_PERMISSION_ALL: u32 = 15;

/// Whether a set of permissions holds one of them.
pub open spec fn permits(permissions: u32, permission: u32) -> bool {
    permissions & permission != 0
}

/// What the root says of an administrator's key.
#[derive(Clone, Copy, Debug, PartialEq, Eq)]
pub struct AdminCertificatePayload {
    pub network_id: NetworkId,
    pub key_id: [u8; 16],
    pub public_key: [u8; 32],
    pub permissions: u32,
    pub serial: u64,
    pub not_before_ms: u64,
    pub expires_at_ms: u64,
    pub issuer_key_id: [u8; 16],
}

/// The first bytes of an administrator certificate.
pub const ADMIN_MAGIC: [u8; 8] = [87, 86, 82, 65, 68, 77, 0, 1];

/// The length of an administrator certificate, without its signature.
pub const ADMIN_PAYLOAD_LEN: usize = 132;

/// The encoding of an administrator certificate: its fields in order, numbers big-endian.
pub open spec fn admin_bytes(p: AdminCertificatePayload) -> Seq<u8> {
    ADMIN_MAGIC@ + p.network_id@ + p.key_id@ + p.public_key@ + wire::be(p.permissions as nat, 4) + wire::be(p.serial as nat, 8) + wire::be(p.not_before_ms as nat, 8) + wire::be(p.expires_at_ms as nat, 8) + p.issuer_key_id@
}

/// The value whose encoding is `b`, if there is one.
pub open spec fn read_admin(b: Seq<u8>) -> Option<AdminCertificatePayload> {
    if b.len() == ADMIN_PAYLOAD_LEN && wire::has_at(b, 0, ADMIN_MAGIC@) {
        Some(
            AdminCertificatePayload {
                network_id: NetworkId(wire::array_at::<32>(b, 8)),
                key_id: wire::array_at::<16>(b, 40),
                public_key: wire::array_at::<32>(b, 56),
                permissions: wire::u32_at(b, 88),
                serial: wire::u64_at(b, 92),
                not_before_ms: wire::u64_at(b, 100),
                expires_at_ms: wire::u64_at(b, 108),
                issuer_key_id: wire::array_at::<16>(b, 116),
            },
        )
    } else {
        None
    }
}

/// Encoding an administrator certificate and reading it back gives the same value.
pub proof fn law_admin_round_trip(p: AdminCertificatePayload)
    ensures
        read_admin(admin_bytes(p)) == Some(p),
        admin_bytes(p).len() == ADMIN_PAYLOAD_LEN,
{
    let b = admin_bytes(p);
    wire::lemma_pow256_values();
    wire::lemma_array_of(p.network_id.0);
    wire::lemma_array_of(p.key_id);
    wire::lemma_array_of(p.public_key);
    wire::lemma_from_be_of_be(p.permissions as nat, 4);
    wire::lemma_from_be_of_be(p.serial as nat, 8);
    wire::lemma_from_be_of_be(p.not_before_ms as nat, 8);
    wire::lemma_from_be_of_be(p.expires_at_ms as nat, 8);
    wire::lemma_array_of(p.issuer_key_id);
    assert(b.subrange(0, 8) =~= ADMIN_MAGIC@);
    assert(b.subrange(8, 40) =~= p.network_id@);
    assert(b.subrange(40, 56) =~= p.key_id@);
    assert(b.subrange(56, 88) =~= p.public_key@);
    assert(b.subrange(88, 92) =~= wire::be(p.permissions as nat, 4));
    assert(b.subrange(92, 100) =~= wire::be(p.serial as nat, 8));
    assert(b.subrange(100, 108) =~= wire::be(p.not_before_ms as nat, 8));
    assert(b.subrange(108, 116) =~= wire::be(p.expires_at_ms as nat, 8));
    assert(b.subrange(116, 132) =~= p.issuer_key_id@);
}

/// Only one sequence of bytes reads as a given admin payload: its encoding.
pub proof fn law_admin_canonical(b: Seq<u8>)
    ensures
        read_admin(b) matches Some(p) ==> admin_bytes(p) == b,
{
    if b.len() == ADMIN_PAYLOAD_LEN && wire::has_at(b, 0, ADMIN_MAGIC@) {
        let p = read_admin(b)->0;
        wire::lemma_pow256_values();
        wire::lemma_array_exists::<32>(b.subrange(8, 40));
        wire::lemma_array_exists::<16>(b.subrange(40, 56));
        wire::lemma_array_exists::<32>(b.subrange(56, 88));
        wire::lemma_be_of_from_be(b.subrange(88, 92));
        wire::lemma_be_of_from_be(b.subrange(92, 100));
        wire::lemma_be_of_from_be(b.subrange(100, 108));
        wire::lemma_be_of_from_be(b.subrange(108, 116));
        wire::lemma_array_exists::<16>(b.subrange(116, 132));
        assert(admin_bytes(p) == b.subrange(0, 8) + b.subrange(8, 40) + b.subrange(40, 56) + b.subrange(56, 88) + b.subrange(88, 92) + b.subrange(92, 100) + b.subrange(100, 108) + b.subrange(108, 116) + b.subrange(116, 132));
        assert(admin_bytes(p) =~= b);
    }
}

fn encode_admin_payload(payload: &AdminCertificatePayload) -> (bytes: Vec<u8>)
    ensures
        bytes@ == admin_bytes(*payload),
{
    let mut out: Vec<u8> = Vec::new();
    push_bytes(&mut out, ADMIN_MAGIC.as_slice());
    push_bytes(&mut out, payload.network_id.as_bytes().as_slice());
    push_bytes(&mut out, payload.key_id.as_slice());
    push_bytes(&mut out, payload.public_key.as_slice());
    push_be(&mut out, payload.permissions as u64, 4);
    push_be(&mut out, payload.serial, 8);
    push_be(&mut out, payload.not_before_ms, 8);
    push_be(&mut out, payload.expires_at_ms, 8);
    push_bytes(&mut out, payload.issuer_key_id.as_slice());
    assert(out@ =~= admin_bytes(*payload));
    out
}

fn decode_admin_payload(bytes: &[u8]) -> (payload: Option<AdminCertificatePayload>)
    ensures
        payload == read_admin(bytes@),
{
    if bytes.len() != ADMIN_PAYLOAD_LEN || !starts_at(bytes, 0, ADMIN_MAGIC.as_slice()) {
        return None;
    }
    Some(
        AdminCertificatePayload {
            network_id: NetworkId::from_bytes(read_array::<32>(bytes, 8)),
            key_id: read_array::<16>(bytes, 40),
            public_key: read_array::<32>(bytes, 56),
            permissions: read_u32(bytes, 88),
            serial: read_u64(bytes, 92),
            not_before_ms: read_u64(bytes, 100),
            expires_at_ms: read_u64(bytes, 108),
            issuer_key_id: read_array::<16>(bytes, 116),
        },
    )
}

/// The signed value that `b` encodes: the payload, then the signature.
pub open spec fn read_signed_admin(b: Seq<u8>) -> Option<Signed<AdminCertificatePayload>> {
    if b.len() == ADMIN_PAYLOAD_LEN + SIGNATURE_LEN {
        match read_admin(b.subrange(0, ADMIN_PAYLOAD_LEN as int)) {
            Some(payload) => Some(
                Signed { payload, signature: wire::array_at::<64>(b, ADMIN_PAYLOAD_LEN as int) },
            ),
            None => None,
        }
    } else {
        None
    }
}

/// The encoding of a signed value.
pub open spec fn signed_admin_bytes(c: Signed<AdminCertificatePayload>) -> Seq<u8> {
    admin_bytes(c.payload) + c.signature@
}

/// Encoding a signed value and reading it back gives the same value.
pub proof fn law_signed_admin_round_trip(c: Signed<AdminCertificatePayload>)
    ensures
        read_signed_admin(signed_admin_bytes(c)) == Some(c),
{
    let b = signed_admin_bytes(c);
    law_admin_round_trip(c.payload);
    wire::lemma_array_of(c.signature);
    assert(b.subrange(0, ADMIN_PAYLOAD_LEN as int) =~= admin_bytes(c.payload));
    assert(b.subrange(ADMIN_PAYLOAD_LEN as int, ADMIN_PAYLOAD_LEN + 64) =~= c.signature@);
}

/// Only one sequence of bytes reads as a given signed value: its encoding.
pub proof fn law_signed_admin_canonical(b: Seq<u8>)
    ensures
        read_signed_admin(b) matches Some(c) ==> signed_admin_bytes(c) == b,
{
    if read_signed_admin(b) is Some {
        let c = read_signed_admin(b)->0;
        law_admin_canonical(b.subrange(0, ADMIN_PAYLOAD_LEN as int));
        wire::lemma_array_exists::<64>(b.subrange(ADMIN_PAYLOAD_LEN as int, ADMIN_PAYLOAD_LEN + 64));
        assert(signed_admin_bytes(c) =~= b);
    }
}

/// A root-signed authorization of an online administrator key.
#[derive(Debug)]
pub struct AdminCertificate {
    payload: AdminCertificatePayload,
    signed_payload: Vec<u8>,
    signature: [u8; 64],
}

impl View for AdminCertificate {
    type V = Signed<AdminCertificatePayload>;

    closed spec fn view(&self) -> Signed<AdminCertificatePayload> {
        Signed { payload: self.payload, signature: self.signature }
    }
}

impl Clone for AdminCertificate {
    fn clone(&self) -> (copy: Self)
        ensures
            copy@ == self@,
    {
        proof {
            use_type_invariant(self);
        }
        let mut signed_payload: Vec<u8> = Vec::new();
        push_bytes(&mut signed_payload, self.signed_payload.as_slice());
        assert(signed_payload@ =~= self.signed_payload@);
        AdminCertificate { payload: self.payload, signed_payload, signature: self.signature }
    }
}

/// What the root with secret `root` writes into an administrator certificate.
pub open spec fn admin_issued(
    root: Seq<u8>,
    public_key: [u8; 32],
    permissions: u32,
    serial: u64,
    not_before_ms: u64,
    expires_at_ms: u64,
) -> AdminCertificatePayload {
    AdminCertificatePayload {
        network_id: keys::network_id_of(outside::ed25519_public(root)),
        key_id: keys::admin_key_id(public_key@),
        public_key,
        permissions,
        serial,
        not_before_ms,
        expires_at_ms,
        issuer_key_id: keys::root_key_id(outside::ed25519_public(root)),
    }
}

/// What becomes of an administrator certificate that is checked against the root key `root`: the
/// payload, or the first of these reasons that applies.
pub open spec fn admin_verdict(
    c: Signed<AdminCertificatePayload>,
    root: Seq<u8>,
    network: NetworkId,
    now_ms: u64,
    revoked: Set<u64>,
) -> Result<AdminCertificatePayload, CertificateError> {
    let p = c.payload;
    if keys::network_id_of(root) != network || p.network_id != network {
        Err(CertificateError::WrongNetwork)
    } else if p.issuer_key_id != keys::root_key_id(root) {
        Err(CertificateError::WrongIssuer)
    } else if keys::admin_key_id(p.public_key@) != p.key_id {
        Err(CertificateError::DerivedIdentityMismatch)
    } else if now_ms < p.not_before_ms {
        Err(CertificateError::NotYetValid)
    } else if now_ms >= p.expires_at_ms {
        Err(CertificateError::Expired)
    } else if revoked.contains(p.serial) {
        Err(CertificateError::Revoked)
    } else if !outside::ed25519_verifies(root, admin_bytes(p), c.signature@) {
        Err(CertificateError::InvalidSignature)
    } else if !outside::ed25519_key_ok(p.public_key@) {
        Err(CertificateError::MalformedKey)
    } else {
        Ok(p)
    }
}

impl AdminCertificate {
    #[verifier::type_invariant]
    spec fn well_formed(self) -> bool {
        self.signed_payload@ == admin_bytes(self.payload)
    }

    /// Reads exactly the encodings of signed values.
    pub fn from_bytes(bytes: &[u8]) -> (signed: Result<Self, CertificateError>)
        ensures
            match read_signed_admin(bytes@) {
                Some(value) => signed matches Ok(signed) && signed@ == value,
                None => signed matches Err(error) && error == CertificateError::MalformedWire,
            },
    {
        if bytes.len() != ADMIN_PAYLOAD_LEN + SIGNATURE_LEN {
            return Err(CertificateError::MalformedWire);
        }
        let signed_payload: Vec<u8> = copy_range(bytes, 0, ADMIN_PAYLOAD_LEN);
        match decode_admin_payload(signed_payload.as_slice()) {
            Some(payload) => {
                let signature: [u8; 64] = read_array::<64>(bytes, ADMIN_PAYLOAD_LEN);
                proof {
                    law_admin_canonical(signed_payload@);
                }
                Ok(AdminCertificate { payload, signed_payload, signature })
            },
            None => Err(CertificateError::MalformedWire),
        }
    }

    /// The exact bytes: the payload as signed, then the signature.
    pub fn to_bytes(&self) -> (bytes: Vec<u8>)
        ensures
            bytes@ == signed_admin_bytes(self@),
    {
        proof {
            use_type_invariant(self);
        }
        append_signature(self.signed_payload.as_slice(), &self.signature)
    }

    pub fn payload(&self) -> (payload: &AdminCertificatePayload)
        ensures
            *payload == self@.payload,
    {
        &self.payload
    }

    /// Issues a certificate for an administrator's key, if the window is not empty and the key is
    /// one.
    pub fn issue(
        root: &NetworkRootKey,
        admin_public_key: [u8; 32],
        permissions: u32,
        serial: u64,
        not_before_ms: u64,
        expires_at_ms: u64,
    ) -> (issued: Result<Self, CertificateError>)
        ensures
            if expires_at_ms <= not_before_ms {
                issued matches Err(error) && error == CertificateError::InvalidValidityWindow
            } else if !outside::ed25519_key_ok(admin_public_key@) {
                issued matches Err(error) && error == CertificateError::MalformedKey
            } else {
                issued matches Ok(c) && c@.payload == admin_issued(
                    root@,
                    admin_public_key,
                    permissions,
                    serial,
                    not_before_ms,
                    expires_at_ms,
                ) && c@.signature@ == outside::ed25519_signature(root@, admin_bytes(c@.payload))
                    && outside::ed25519_verifies(
                    outside::ed25519_public(root@),
                    admin_bytes(c@.payload),
                    c@.signature@,
                )
            },
    {
        if expires_at_ms <= not_before_ms {
            return Err(CertificateError::InvalidValidityWindow);
        }
        if !verifying_key_ok(&admin_public_key) {
            return Err(CertificateError::MalformedKey);
        }
        let root_public: NetworkRootPublic = root.public();
        let payload = AdminCertificatePayload {
            network_id: root_public.network_id(),
            key_id: derive_admin_key_id(&admin_public_key),
            public_key: admin_public_key,
            permissions,
            serial,
            not_before_ms,
            expires_at_ms,
            issuer_key_id: root_public.key_id(),
        };
        let signed_payload: Vec<u8> = encode_admin_payload(&payload);
        let signature: [u8; 64] = root.sign_bytes(signed_payload.as_slice());
        Ok(AdminCertificate { payload, signed_payload, signature })
    }

    /// Checks the certificate against the root, the network, the time and the revocations.
    pub fn verify(
        &self,
        root: &NetworkRootPublic,
        expected_network: NetworkId,
        now_ms: u64,
        revoked_serials: &HashSet<u64>,
    ) -> (verified: Result<VerifiedAdmin, CertificateError>)
        ensures
            match admin_verdict(self@, root@, expected_network, now_ms, revoked_serials@) {
                Ok(payload) => verified matches Ok(admin) && admin@ == payload,
                Err(reason) => verified matches Err(error) && error == reason,
            },
    {
        proof {
            use_type_invariant(self);
        }
        if root.network_id() != expected_network || self.payload.network_id != expected_network {
            return Err(CertificateError::WrongNetwork);
        }
        if !arrays_equal(&self.payload.issuer_key_id, &root.key_id()) {
            return Err(CertificateError::WrongIssuer);
        }
        if !arrays_equal(&derive_admin_key_id(&self.payload.public_key), &self.payload.key_id) {
            return Err(CertificateError::DerivedIdentityMismatch);
        }
        match validate_time(self.payload.not_before_ms, self.payload.expires_at_ms, now_ms) {
            Ok(()) => {},
            Err(error) => {
                return Err(error);
            },
        }
        if revoked_serials.contains(&self.payload.serial) {
            return Err(CertificateError::Revoked);
        }
        match root.verify_bytes(self.signed_payload.as_slice(), &self.signature) {
            Ok(()) => {},
            Err(error) => {
                return Err(error);
            },
        }
        if !verifying_key_ok(&self.payload.public_key) {
            return Err(CertificateError::MalformedKey);
        }
        Ok(VerifiedAdmin { payload: self.payload })
    }
}

/// An administrator whose certificate was checked. Its view is the certificate's payload.
#[derive(Clone, Copy, Debug, PartialEq, Eq)]
pub struct VerifiedAdmin {
    payload: AdminCertificatePayload,
}

impl View for VerifiedAdmin {
    type V = AdminCertificatePayload;

    closed spec fn view(&self) -> AdminCertificatePayload {
        self.payload
    }
}

impl VerifiedAdmin {
    pub fn payload(&self) -> (payload: &AdminCertificatePayload)
        ensures
            *payload == self@,
    {
        &self.payload
    }

    /// Checks a signature of the administrator over exact bytes.
    pub fn verify_bytes(&self, payload: &[u8], signature: &[u8; 64]) -> (valid: Result<
        (),
        CertificateError,
    >)
        ensures
            valid == (if outside::ed25519_verifies(self@.public_key@, payload@, signature@) {
                Ok(())
            } else {
                Err::<(), CertificateError>(CertificateError::InvalidSignature)
            }),
    {
        verify_signature(&self.payload.public_key, payload, signature)
    }
}

/// A certificate that the root issued is accepted under that root, throughout its window, by
/// everyone who has not revoked its serial.
pub proof fn law_admin_issue_then_verify(
    root: Seq<u8>,
    public_key: [u8; 32],
    permissions: u32,
    serial: u64,
    not_before_ms: u64,
    expires_at_ms: u64,
    signature: [u8; 64],
    now_ms: u64,
    revoked: Set<u64>,
)
    requires
        outside::ed25519_key_ok(public_key@),
        not_before_ms <= now_ms < expires_at_ms,
        !revoked.contains(serial),
        outside::ed25519_verifies(
            outside::ed25519_public(root),
            admin_bytes(
                admin_issued(root, public_key, permissions, serial, not_before_ms, expires_at_ms),
            ),
            signature@,
        ),
    ensures
        ({
            let p = admin_issued(
                root,
                public_key,
                permissions,
                serial,
                not_before_ms,
                expires_at_ms,
            );
            admin_verdict(
                Signed { payload: p, signature },
                outside::ed25519_public(root),
                p.network_id,
                now_ms,
                revoked,
            ) == Ok::<AdminCertificatePayload, CertificateError>(p)
        }),
{
}

/// Whoever is accepted as an administrator holds a root signature over their exact payload, in
/// this network, at this time.
pub proof fn law_admin_accepted_is_authentic(
    c: Signed<AdminCertificatePayload>,
    root: Seq<u8>,
    network: NetworkId,
    now_ms: u64,
    revoked: Set<u64>,
)
    requires
        admin_verdict(c, root, network, now_ms, revoked) is Ok,
    ensures
        outside::ed25519_verifies(root, admin_bytes(c.payload), c.signature@),
        c.payload.network_id == network,
        keys::network_id_of(root) == network,
        c.payload.not_before_ms <= now_ms < c.payload.expires_at_ms,
        !revoked.contains(c.payload.serial),
        c.payload.key_id == keys::admin_key_id(c.payload.public_key@),
{
}

} // verus!
