//! Registration of applications and the bindings of members to them.
use crate::crypto::admin;
use crate::crypto::admin::{AdminCertificatePayload, VerifiedAdmin, ADMIN_PERMISSION_REGISTER_APP};
use crate::crypto::keys;
use crate::crypto::keys::{
    append_signature, derive_app_addr, verify_signature, AppRootKey, CertificateError,
    NetworkRootKey, NetworkRootPublic, OnlineAdminKey, Signed, SIGNATURE_LEN,
};
use crate::crypto::member::{MemberCertificatePayload, VerifiedMember};
use crate::identifiers::{AppAddr, DeviceId, MemberId, NetworkId, ServiceId};
use crate::outside;
use crate::outside::verifying_key_ok;
use crate::wire;
use crate::wire::{
    arrays_equal, copy_range, is_zero, push_be, push_bytes, read_array, read_u16, read_u32,
    read_u64, starts_at,
};
use vstd::prelude::*;

verus! {

/// The most services that one binding may name.
pub const MAX_SERVICES_PER_BINDING: usize = 64;

/// What an application says of itself when it asks to be registered.
#[derive(Clone, Copy, Debug, PartialEq, Eq)]
pub struct AppRegistrationRequestPayload {
    pub network_id: NetworkId,
    pub app_addr: AppAddr,
    pub app_root_public_key: [u8; 32],
    pub policy: u32,
}

/// What an issuer says of an application.
#[derive(Clone, Copy, Debug, PartialEq, Eq)]
pub struct AppRegistrationPayload {
    pub network_id: NetworkId,
    pub app_addr: AppAddr,
    pub app_root_public_key: [u8; 32],
    pub policy: u32,
    pub issuer_key_id: [u8; 16],
}

/// The first bytes of an application registration request.
pub const APP_REQUEST_MAGIC: [u8; 8] = [87, 86, 82, 65, 80, 82, 0, 1];

/// The length of an application registration request, without its signature.
pub const APP_REQUEST_PAYLOAD_LEN: usize = 108;

/// The encoding of an application registration request: its fields in order, numbers big-endian.
pub open spec fn app_request_bytes(p: AppRegistrationRequestPayload) -> Seq<u8> {
    APP_REQUEST_MAGIC@ + p.network_id@ + p.app_addr@ + p.app_root_public_key@ + wire::be(p.policy as nat, 4)
}

/// The value whose encoding is `b`, if there is one.
pub open spec fn read_app_request(b: Seq<u8>) -> Option<AppRegistrationRequestPayload> {
    if b.len() == APP_REQUEST_PAYLOAD_LEN && wire::has_at(b, 0, APP_REQUEST_MAGIC@) {
        Some(
            AppRegistrationRequestPayload {
                network_id: NetworkId(wire::array_at::<32>(b, 8)),
                app_addr: AppAddr(wire::array_at::<32>(b, 40)),
                app_root_public_key: wire::array_at::<32>(b, 72),
                policy: wire::u32_at(b, 104),
            },
        )
    } else {
        None
    }
}

/// Encoding an application registration request and reading it back gives the same value.
pub proof fn law_app_request_round_trip(p: AppRegistrationRequestPayload)
    ensures
        read_app_request(app_request_bytes(p)) == Some(p),
        app_request_bytes(p).len() == APP_REQUEST_PAYLOAD_LEN,
{
    let b = app_request_bytes(p);
    wire::lemma_pow256_values();
    wire::lemma_array_of(p.network_id.0);
    wire::lemma_array_of(p.app_addr.0);
    wire::lemma_array_of(p.app_root_public_key);
    wire::lemma_from_be_of_be(p.policy as nat, 4);
    assert(b.subrange(0, 8) =~= APP_REQUEST_MAGIC@);
    assert(b.subrange(8, 40) =~= p.network_id@);
    assert(b.subrange(40, 72) =~= p.app_addr@);
    assert(b.subrange(72, 104) =~= p.app_root_public_key@);
    assert(b.subrange(104, 108) =~= wire::be(p.policy as nat, 4));
}

/// Only one sequence of bytes reads as a given app request payload: its encoding.
pub proof fn law_app_request_canonical(b: Seq<u8>)
    ensures
        read_app_request(b) matches Some(p) ==> app_request_bytes(p) == b,
{
    if b.len() == APP_REQUEST_PAYLOAD_LEN && wire::has_at(b, 0, APP_REQUEST_MAGIC@) {
        let p = read_app_request(b)->0;
        wire::lemma_pow256_values();
        wire::lemma_array_exists::<32>(b.subrange(8, 40));
        wire::lemma_array_exists::<32>(b.subrange(40, 72));
        wire::lemma_array_exists::<32>(b.subrange(72, 104));
        wire::lemma_be_of_from_be(b.subrange(104, 108));
        assert(app_request_bytes(p) == b.subrange(0, 8) + b.subrange(8, 40) + b.subrange(40, 72) + b.subrange(72, 104) + b.subrange(104, 108));
        assert(app_request_bytes(p) =~= b);
    }
}

fn encode_app_request_payload(payload: &AppRegistrationRequestPayload) -> (bytes: Vec<u8>)
    ensures
        bytes@ == app_request_bytes(*payload),
{
    let mut out: Vec<u8> = Vec::new();
    push_bytes(&mut out, APP_REQUEST_MAGIC.as_slice());
    push_bytes(&mut out, payload.network_id.as_bytes().as_slice());
    push_bytes(&mut out, payload.app_addr.as_bytes().as_slice());
    push_bytes(&mut out, payload.app_root_public_key.as_slice());
    push_be(&mut out, payload.policy as u64, 4);
    assert(out@ =~= app_request_bytes(*payload));
    out
}

fn decode_app_request_payload(bytes: &[u8]) -> (payload: Option<AppRegistrationRequestPayload>)
    ensures
        payload == read_app_request(bytes@),
{
    if bytes.len() != APP_REQUEST_PAYLOAD_LEN || !starts_at(bytes, 0, APP_REQUEST_MAGIC.as_slice()) {
        return None;
    }
    Some(
        AppRegistrationRequestPayload {
            network_id: NetworkId::from_bytes(read_array::<32>(bytes, 8)),
            app_addr: AppAddr::from_bytes(read_array::<32>(bytes, 40)),
            app_root_public_key: read_array::<32>(bytes, 72),
            policy: read_u32(bytes, 104),
        },
    )
}

/// The signed value that `b` encodes: the payload, then the signature.
pub open spec fn read_signed_app_request(b: Seq<u8>) -> Option<Signed<AppRegistrationRequestPayload>> {
    if b.len() == APP_REQUEST_PAYLOAD_LEN + SIGNATURE_LEN {
        match read_app_request(b.subrange(0, APP_REQUEST_PAYLOAD_LEN as int)) {
            Some(payload) => Some(
                Signed { payload, signature: wire::array_at::<64>(b, APP_REQUEST_PAYLOAD_LEN as int) },
            ),
            None => None,
        }
    } else {
        None
    }
}

/// The encoding of a signed value.
pub open spec fn signed_app_request_bytes(c: Signed<AppRegistrationRequestPayload>) -> Seq<u8> {
    app_request_bytes(c.payload) + c.signature@
}

/// Encoding a signed value and reading it back gives the same value.
pub proof fn law_signed_app_request_round_trip(c: Signed<AppRegistrationRequestPayload>)
    ensures
        read_signed_app_request(signed_app_request_bytes(c)) == Some(c),
{
    let b = signed_app_request_bytes(c);
    law_app_request_round_trip(c.payload);
    wire::lemma_array_of(c.signature);
    assert(b.subrange(0, APP_REQUEST_PAYLOAD_LEN as int) =~= app_request_bytes(c.payload));
    assert(b.subrange(APP_REQUEST_PAYLOAD_LEN as int, APP_REQUEST_PAYLOAD_LEN + 64) =~= c.signature@);
}

/// Only one sequence of bytes reads as a given signed value: its encoding.
pub proof fn law_signed_app_request_canonical(b: Seq<u8>)
    ensures
        read_signed_app_request(b) matches Some(c) ==> signed_app_request_bytes(c) == b,
{
    if read_signed_app_request(b) is Some {
        let c = read_signed_app_request(b)->0;
        law_app_request_canonical(b.subrange(0, APP_REQUEST_PAYLOAD_LEN as int));
        wire::lemma_array_exists::<64>(b.subrange(APP_REQUEST_PAYLOAD_LEN as int, APP_REQUEST_PAYLOAD_LEN + 64));
        assert(signed_app_request_bytes(c) =~= b);
    }
}

/// A request, signed by the application itself, to be registered in a network.
#[derive(Debug, PartialEq, Eq)]
pub struct AppRegistrationRequest {
    payload: AppRegistrationRequestPayload,
    signed_payload: Vec<u8>,
    signature: [u8; 64],
}

impl View for AppRegistrationRequest {
    type V = Signed<AppRegistrationRequestPayload>;

    closed spec fn view(&self) -> Signed<AppRegistrationRequestPayload> {
        Signed { payload: self.payload, signature: self.signature }
    }
}

impl Clone for AppRegistrationRequest {
    fn clone(&self) -> (copy: Self)
        ensures
            copy@ == self@,
    {
        proof {
            use_type_invariant(self);
        }
        let mut signed_payload: Vec<u8> = Vec::new();
        push_bytes(&mut signed_payload, self.signed_payload.as_slice());
        assert(signed_payload@ =~= self.signed_payload@);
        AppRegistrationRequest { payload: self.payload, signed_payload, signature: self.signature }
    }
}

/// What the application with root secret `secret` says when it asks to be registered.
pub open spec fn app_requested(secret: Seq<u8>, network: NetworkId, policy: u32)
    -> AppRegistrationRequestPayload {
    AppRegistrationRequestPayload {
        network_id: network,
        app_addr: keys::app_addr_of(outside::ed25519_public(secret)),
        app_root_public_key: wire::array_of::<32>(outside::ed25519_public(secret)),
        policy,
    }
}

/// What becomes of a registration request: its payload, or the first of these reasons that
/// applies.
pub open spec fn app_request_verdict(
    c: Signed<AppRegistrationRequestPayload>,
    network: NetworkId,
) -> Result<AppRegistrationRequestPayload, CertificateError> {
    let p = c.payload;
    if p.network_id != network {
        Err(CertificateError::WrongNetwork)
    } else if keys::app_addr_of(p.app_root_public_key@) != p.app_addr {
        Err(CertificateError::DerivedIdentityMismatch)
    } else if !outside::ed25519_key_ok(p.app_root_public_key@) {
        Err(CertificateError::MalformedKey)
    } else if !outside::ed25519_verifies(
        p.app_root_public_key@,
        app_request_bytes(p),
        c.signature@,
    ) {
        Err(CertificateError::InvalidSignature)
    } else {
        Ok(p)
    }
}

impl AppRegistrationRequest {
    #[verifier::type_invariant]
    spec fn well_formed(self) -> bool {
        self.signed_payload@ == app_request_bytes(self.payload)
    }

    /// Reads exactly the encodings of signed values.
    pub fn from_bytes(bytes: &[u8]) -> (signed: Result<Self, CertificateError>)
        ensures
            match read_signed_app_request(bytes@) {
                Some(value) => signed matches Ok(signed) && signed@ == value,
                None => signed matches Err(error) && error == CertificateError::MalformedWire,
            },
    {
        if bytes.len() != APP_REQUEST_PAYLOAD_LEN + SIGNATURE_LEN {
            return Err(CertificateError::MalformedWire);
        }
        let signed_payload: Vec<u8> = copy_range(bytes, 0, APP_REQUEST_PAYLOAD_LEN);
        match decode_app_request_payload(signed_payload.as_slice()) {
            Some(payload) => {
                let signature: [u8; 64] = read_array::<64>(bytes, APP_REQUEST_PAYLOAD_LEN);
                proof {
                    law_app_request_canonical(signed_payload@);
                }
                Ok(AppRegistrationRequest { payload, signed_payload, signature })
            },
            None => Err(CertificateError::MalformedWire),
        }
    }

    /// The exact bytes: the payload as signed, then the signature.
    pub fn to_bytes(&self) -> (bytes: Vec<u8>)
        ensures
            bytes@ == signed_app_request_bytes(self@),
    {
        proof {
            use_type_invariant(self);
        }
        append_signature(self.signed_payload.as_slice(), &self.signature)
    }

    /// Asks for registration. The request is accepted in its network, and in no other.
    pub fn create(app_root: &AppRootKey, network_id: NetworkId, policy: u32) -> (request: Self)
        ensures
            request@.payload == app_requested(app_root@, network_id, policy),
            request@.signature@ == outside::ed25519_signature(
                app_root@,
                app_request_bytes(request@.payload),
            ),
            forall|network: NetworkId| #[trigger]
                app_request_verdict(request@, network) == (if network == network_id {
                    Ok(request@.payload)
                } else {
                    Err::<AppRegistrationRequestPayload, CertificateError>(
                        CertificateError::WrongNetwork,
                    )
                }),
    {
        let app_root_public_key: [u8; 32] = app_root.public_bytes();
        proof {
            wire::lemma_array_of(app_root_public_key);
        }
        let payload = AppRegistrationRequestPayload {
            network_id,
            app_addr: app_root.app_addr(),
            app_root_public_key,
            policy,
        };
        let signed_payload: Vec<u8> = encode_app_request_payload(&payload);
        let signature: [u8; 64] = app_root.sign(signed_payload.as_slice());
        AppRegistrationRequest { payload, signed_payload, signature }
    }

    /// Checks that the application itself signed the request for this network.
    pub fn verify(&self, expected_network: NetworkId) -> (verified: Result<
        VerifiedAppRegistrationRequest,
        CertificateError,
    >)
        ensures
            match app_request_verdict(self@, expected_network) {
                Ok(payload) => verified matches Ok(request) && request@ == payload,
                Err(reason) => verified matches Err(error) && error == reason,
            },
    {
        proof {
            use_type_invariant(self);
        }
        if self.payload.network_id != expected_network {
            return Err(CertificateError::WrongNetwork);
        }
        if derive_app_addr(&self.payload.app_root_public_key) != self.payload.app_addr {
            return Err(CertificateError::DerivedIdentityMismatch);
        }
        if !verifying_key_ok(&self.payload.app_root_public_key) {
            return Err(CertificateError::MalformedKey);
        }
        match verify_signature(
            &self.payload.app_root_public_key,
            self.signed_payload.as_slice(),
            &self.signature,
        ) {
            Ok(()) => Ok(VerifiedAppRegistrationRequest(self.payload)),
            Err(error) => Err(error),
        }
    }
}

/// A registration request that was checked. Its view is the request's payload.
#[derive(Clone, Copy, Debug, PartialEq, Eq)]
pub struct VerifiedAppRegistrationRequest(AppRegistrationRequestPayload);

impl View for VerifiedAppRegistrationRequest {
    type V = AppRegistrationRequestPayload;

    closed spec fn view(&self) -> AppRegistrationRequestPayload {
        self.0
    }
}

impl VerifiedAppRegistrationRequest {
    pub fn payload(&self) -> (payload: &AppRegistrationRequestPayload)
        ensures
            *payload == self@,
    {
        &self.0
    }
}

/// The first bytes of an application registration.
pub const APP_REGISTRATION_MAGIC: [u8; 8] = [87, 86, 82, 65, 80, 80, 0, 1];

/// The length of an application registration, without its signature.
pub const APP_REGISTRATION_PAYLOAD_LEN: usize = 124;

/// The encoding of an application registration: its fields in order, numbers big-endian.
pub open spec fn app_registration_bytes(p: AppRegistrationPayload) -> Seq<u8> {
    APP_REGISTRATION_MAGIC@ + p.network_id@ + p.app_addr@ + p.app_root_public_key@ + wire::be(p.policy as nat, 4) + p.issuer_key_id@
}

/// The value whose encoding is `b`, if there is one.
pub open spec fn read_app_registration(b: Seq<u8>) -> Option<AppRegistrationPayload> {
    if b.len() == APP_REGISTRATION_PAYLOAD_LEN && wire::has_at(b, 0, APP_REGISTRATION_MAGIC@) {
        Some(
            AppRegistrationPayload {
                network_id: NetworkId(wire::array_at::<32>(b, 8)),
                app_addr: AppAddr(wire::array_at::<32>(b, 40)),
                app_root_public_key: wire::array_at::<32>(b, 72),
                policy: wire::u32_at(b, 104),
                issuer_key_id: wire::array_at::<16>(b, 108),
            },
        )
    } else {
        None
    }
}

/// Encoding an application registration and reading it back gives the same value.
pub proof fn law_app_registration_round_trip(p: AppRegistrationPayload)
    ensures
        read_app_registration(app_registration_bytes(p)) == Some(p),
        app_registration_bytes(p).len() == APP_REGISTRATION_PAYLOAD_LEN,
{
    let b = app_registration_bytes(p);
    wire::lemma_pow256_values();
    wire::lemma_array_of(p.network_id.0);
    wire::lemma_array_of(p.app_addr.0);
    wire::lemma_array_of(p.app_root_public_key);
    wire::lemma_from_be_of_be(p.policy as nat, 4);
    wire::lemma_array_of(p.issuer_key_id);
    assert(b.subrange(0, 8) =~= APP_REGISTRATION_MAGIC@);
    assert(b.subrange(8, 40) =~= p.network_id@);
    assert(b.subrange(40, 72) =~= p.app_addr@);
    assert(b.subrange(72, 104) =~= p.app_root_public_key@);
    assert(b.subrange(104, 108) =~= wire::be(p.policy as nat, 4));
    assert(b.subrange(108, 124) =~= p.issuer_key_id@);
}

/// Only one sequence of bytes reads as a given app registration payload: its encoding.
pub proof fn law_app_registration_canonical(b: Seq<u8>)
    ensures
        read_app_registration(b) matches Some(p) ==> app_registration_bytes(p) == b,
{
    if b.len() == APP_REGISTRATION_PAYLOAD_LEN && wire::has_at(b, 0, APP_REGISTRATION_MAGIC@) {
        let p = read_app_registration(b)->0;
        wire::lemma_pow256_values();
        wire::lemma_array_exists::<32>(b.subrange(8, 40));
        wire::lemma_array_exists::<32>(b.subrange(40, 72));
        wire::lemma_array_exists::<32>(b.subrange(72, 104));
        wire::lemma_be_of_from_be(b.subrange(104, 108));
        wire::lemma_array_exists::<16>(b.subrange(108, 124));
        assert(app_registration_bytes(p) == b.subrange(0, 8) + b.subrange(8, 40) + b.subrange(40, 72) + b.subrange(72, 104) + b.subrange(104, 108) + b.subrange(108, 124));
        assert(app_registration_bytes(p) =~= b);
    }
}

fn encode_app_registration_payload(payload: &AppRegistrationPayload) -> (bytes: Vec<u8>)
    ensures
        bytes@ == app_registration_bytes(*payload),
{
    let mut out: Vec<u8> = Vec::new();
    push_bytes(&mut out, APP_REGISTRATION_MAGIC.as_slice());
    push_bytes(&mut out, payload.network_id.as_bytes().as_slice());
    push_bytes(&mut out, payload.app_addr.as_bytes().as_slice());
    push_bytes(&mut out, payload.app_root_public_key.as_slice());
    push_be(&mut out, payload.policy as u64, 4);
    push_bytes(&mut out, payload.issuer_key_id.as_slice());
    assert(out@ =~= app_registration_bytes(*payload));
    out
}

fn decode_app_registration_payload(bytes: &[u8]) -> (payload: Option<AppRegistrationPayload>)
    ensures
        payload == read_app_registration(bytes@),
{
    if bytes.len() != APP_REGISTRATION_PAYLOAD_LEN || !starts_at(bytes, 0, APP_REGISTRATION_MAGIC.as_slice()) {
        return None;
    }
    Some(
        AppRegistrationPayload {
            network_id: NetworkId::from_bytes(read_array::<32>(bytes, 8)),
            app_addr: AppAddr::from_bytes(read_array::<32>(bytes, 40)),
            app_root_public_key: read_array::<32>(bytes, 72),
            policy: read_u32(bytes, 104),
            issuer_key_id: read_array::<16>(bytes, 108),
        },
    )
}

/// The signed value that `b` encodes: the payload, then the signature.
pub open spec fn read_signed_app_registration(b: Seq<u8>) -> Option<Signed<AppRegistrationPayload>> {
    if b.len() == APP_REGISTRATION_PAYLOAD_LEN + SIGNATURE_LEN {
        match read_app_registration(b.subrange(0, APP_REGISTRATION_PAYLOAD_LEN as int)) {
            Some(payload) => Some(
                Signed { payload, signature: wire::array_at::<64>(b, APP_REGISTRATION_PAYLOAD_LEN as int) },
            ),
            None => None,
        }
    } else {
        None
    }
}

/// The encoding of a signed value.
pub open spec fn signed_app_registration_bytes(c: Signed<AppRegistrationPayload>) -> Seq<u8> {
    app_registration_bytes(c.payload) + c.signature@
}

/// Encoding a signed value and reading it back gives the same value.
pub proof fn law_signed_app_registration_round_trip(c: Signed<AppRegistrationPayload>)
    ensures
        read_signed_app_registration(signed_app_registration_bytes(c)) == Some(c),
{
    let b = signed_app_registration_bytes(c);
    law_app_registration_round_trip(c.payload);
    wire::lemma_array_of(c.signature);
    assert(b.subrange(0, APP_REGISTRATION_PAYLOAD_LEN as int) =~= app_registration_bytes(c.payload));
    assert(b.subrange(APP_REGISTRATION_PAYLOAD_LEN as int, APP_REGISTRATION_PAYLOAD_LEN + 64) =~= c.signature@);
}

/// Only one sequence of bytes reads as a given signed value: its encoding.
pub proof fn law_signed_app_registration_canonical(b: Seq<u8>)
    ensures
        read_signed_app_registration(b) matches Some(c) ==> signed_app_registration_bytes(c) == b,
{
    if read_signed_app_registration(b) is Some {
        let c = read_signed_app_registration(b)->0;
        law_app_registration_canonical(b.subrange(0, APP_REGISTRATION_PAYLOAD_LEN as int));
        wire::lemma_array_exists::<64>(b.subrange(APP_REGISTRATION_PAYLOAD_LEN as int, APP_REGISTRATION_PAYLOAD_LEN + 64));
        assert(signed_app_registration_bytes(c) =~= b);
    }
}

/// A signed admission of one application to one network.
#[derive(Debug)]
pub struct AppRegistration {
    payload: AppRegistrationPayload,
    signed_payload: Vec<u8>,
    signature: [u8; 64],
}

impl View for AppRegistration {
    type V = Signed<AppRegistrationPayload>;

    closed spec fn view(&self) -> Signed<AppRegistrationPayload> {
        Signed { payload: self.payload, signature: self.signature }
    }
}

impl Clone for AppRegistration {
    fn clone(&self) -> (copy: Self)
        ensures
            copy@ == self@,
    {
        proof {
            use_type_invariant(self);
        }
        let mut signed_payload: Vec<u8> = Vec::new();
        push_bytes(&mut signed_payload, self.signed_payload.as_slice());
        assert(signed_payload@ =~= self.signed_payload@);
        AppRegistration { payload: self.payload, signed_payload, signature: self.signature }
    }
}

/// What becomes of a registration that is checked against the root key `root`: its payload, or the
/// first of these reasons that applies.
pub open spec fn app_verdict(
    c: Signed<AppRegistrationPayload>,
    root: Seq<u8>,
    network: NetworkId,
) -> Result<AppRegistrationPayload, CertificateError> {
    let p = c.payload;
    if keys::network_id_of(root) != network || p.network_id != network {
        Err(CertificateError::WrongNetwork)
    } else if p.issuer_key_id != keys::root_key_id(root) {
        Err(CertificateError::WrongIssuer)
    } else if keys::app_addr_of(p.app_root_public_key@) != p.app_addr {
        Err(CertificateError::DerivedIdentityMismatch)
    } else if !outside::ed25519_verifies(root, app_registration_bytes(p), c.signature@) {
        Err(CertificateError::InvalidSignature)
    } else {
        Ok(p)
    }
}

/// What becomes of a registration that is checked against an administrator: its payload, or the
/// first of these reasons that applies.
pub open spec fn app_admin_verdict(
    c: Signed<AppRegistrationPayload>,
    issuer: AdminCertificatePayload,
    network: NetworkId,
) -> Result<AppRegistrationPayload, CertificateError> {
    let p = c.payload;
    if issuer.network_id != network || p.network_id != network {
        Err(CertificateError::WrongNetwork)
    } else if !admin::permits(issuer.permissions, ADMIN_PERMISSION_REGISTER_APP) {
        Err(CertificateError::PermissionDenied)
    } else if p.issuer_key_id != issuer.key_id {
        Err(CertificateError::WrongIssuer)
    } else if keys::app_addr_of(p.app_root_public_key@) != p.app_addr {
        Err(CertificateError::DerivedIdentityMismatch)
    } else if !outside::ed25519_verifies(
        issuer.public_key@,
        app_registration_bytes(p),
        c.signature@,
    ) {
        Err(CertificateError::InvalidSignature)
    } else {
        Ok(p)
    }
}

/// Why the holder of the administrator secret `secret` may not register an application under the
/// certificate `issuer`, if anything stands against it.
pub open spec fn app_issue_refusal(
    secret: Seq<u8>,
    issuer: AdminCertificatePayload,
    request: AppRegistrationRequestPayload,
) -> Option<CertificateError> {
    let public = outside::ed25519_public(secret);
    if public != issuer.public_key@ || keys::admin_key_id(public) != issuer.key_id {
        Some(CertificateError::KeyMismatch)
    } else if !admin::permits(issuer.permissions, ADMIN_PERMISSION_REGISTER_APP) {
        Some(CertificateError::PermissionDenied)
    } else if request.network_id != issuer.network_id {
        Some(CertificateError::WrongNetwork)
    } else {
        None
    }
}

impl AppRegistration {
    #[verifier::type_invariant]
    spec fn well_formed(self) -> bool {
        self.signed_payload@ == app_registration_bytes(self.payload)
    }

    /// Reads exactly the encodings of signed values.
    pub fn from_bytes(bytes: &[u8]) -> (signed: Result<Self, CertificateError>)
        ensures
            match read_signed_app_registration(bytes@) {
                Some(value) => signed matches Ok(signed) && signed@ == value,
                None => signed matches Err(error) && error == CertificateError::MalformedWire,
            },
    {
        if bytes.len() != APP_REGISTRATION_PAYLOAD_LEN + SIGNATURE_LEN {
            return Err(CertificateError::MalformedWire);
        }
        let signed_payload: Vec<u8> = copy_range(bytes, 0, APP_REGISTRATION_PAYLOAD_LEN);
        match decode_app_registration_payload(signed_payload.as_slice()) {
            Some(payload) => {
                let signature: [u8; 64] = read_array::<64>(bytes, APP_REGISTRATION_PAYLOAD_LEN);
                proof {
                    law_app_registration_canonical(signed_payload@);
                }
                Ok(AppRegistration { payload, signed_payload, signature })
            },
            None => Err(CertificateError::MalformedWire),
        }
    }

    /// The exact bytes: the payload as signed, then the signature.
    pub fn to_bytes(&self) -> (bytes: Vec<u8>)
        ensures
            bytes@ == signed_app_registration_bytes(self@),
    {
        proof {
            use_type_invariant(self);
        }
        append_signature(self.signed_payload.as_slice(), &self.signature)
    }

    pub fn payload(&self) -> (payload: &AppRegistrationPayload)
        ensures
            *payload == self@.payload,
    {
        &self.payload
    }

    /// Registers an application on the root's own authority.
    pub fn issue(root: &NetworkRootKey, app_root: &AppRootKey, policy: u32) -> (issued: Self)
        ensures
            ({
                let root_key = outside::ed25519_public(root@);
                &&& issued@.payload == (AppRegistrationPayload {
                    network_id: keys::network_id_of(root_key),
                    app_addr: keys::app_addr_of(outside::ed25519_public(app_root@)),
                    app_root_public_key: wire::array_of::<32>(outside::ed25519_public(app_root@)),
                    policy,
                    issuer_key_id: keys::root_key_id(root_key),
                })
                &&& issued@.signature@ == outside::ed25519_signature(
                    root@,
                    app_registration_bytes(issued@.payload),
                )
                &&& app_verdict(issued@, root_key, keys::network_id_of(root_key)) == Ok::<
                    AppRegistrationPayload,
                    CertificateError,
                >(issued@.payload)
            }),
    {
        let root_public: NetworkRootPublic = root.public();
        let app_root_public_key: [u8; 32] = app_root.public_bytes();
        proof {
            wire::lemma_array_of(app_root_public_key);
        }
        let payload = AppRegistrationPayload {
            network_id: root_public.network_id(),
            app_addr: app_root.app_addr(),
            app_root_public_key,
            policy,
            issuer_key_id: root_public.key_id(),
        };
        let signed_payload: Vec<u8> = encode_app_registration_payload(&payload);
        let signature: [u8; 64] = root.sign_bytes(signed_payload.as_slice());
        AppRegistration { payload, signed_payload, signature }
    }

    /// Registers an application that asked for it, on an online administrator's authority.
    pub fn issue_by_admin(
        admin: &OnlineAdminKey,
        admin_certificate: &AdminCertificatePayload,
        request: &VerifiedAppRegistrationRequest,
    ) -> (issued: Result<Self, CertificateError>)
        ensures
            match app_issue_refusal(admin@, *admin_certificate, request@) {
                Some(reason) => issued matches Err(error) && error == reason,
                None => issued matches Ok(c) && c@.payload == (AppRegistrationPayload {
                    network_id: request@.network_id,
                    app_addr: request@.app_addr,
                    app_root_public_key: request@.app_root_public_key,
                    policy: request@.policy,
                    issuer_key_id: admin_certificate.key_id,
                }) && c@.signature@ == outside::ed25519_signature(
                    admin@,
                    app_registration_bytes(c@.payload),
                ) && outside::ed25519_verifies(
                    admin_certificate.public_key@,
                    app_registration_bytes(c@.payload),
                    c@.signature@,
                ),
            },
    {
        if !arrays_equal(&admin.public_bytes(), &admin_certificate.public_key) || !arrays_equal(
            &admin.key_id(),
            &admin_certificate.key_id,
        ) {
            return Err(CertificateError::KeyMismatch);
        }
        if admin_certificate.permissions & ADMIN_PERMISSION_REGISTER_APP == 0 {
            return Err(CertificateError::PermissionDenied);
        }
        let asked: &AppRegistrationRequestPayload = request.payload();
        if asked.network_id != admin_certificate.network_id {
            return Err(CertificateError::WrongNetwork);
        }
        let payload = AppRegistrationPayload {
            network_id: asked.network_id,
            app_addr: asked.app_addr,
            app_root_public_key: asked.app_root_public_key,
            policy: asked.policy,
            issuer_key_id: admin_certificate.key_id,
        };
        let signed_payload: Vec<u8> = encode_app_registration_payload(&payload);
        let signature: [u8; 64] = admin.sign_bytes(signed_payload.as_slice());
        Ok(AppRegistration { payload, signed_payload, signature })
    }

    /// Checks a registration that the root issued.
    pub fn verify(&self, root: &NetworkRootPublic, expected_network: NetworkId) -> (verified:
        Result<VerifiedApp, CertificateError>)
        ensures
            match app_verdict(self@, root@, expected_network) {
                Ok(payload) => verified matches Ok(app) && app@ == payload,
                Err(reason) => verified matches Err(error) && error == reason,
            },
    {
        proof {
            use_type_invariant(self);
        }
        if root.network_id() != expected_network || self.payload.network_id != expected_network {
            return Err(CertificateError::WrongNetwork);
        }
        if !arrays_equal(&self.payload.issuer_key_id, &root.key_id()) {
            return Err(CertificateError::WrongIssuer);
        }
        if derive_app_addr(&self.payload.app_root_public_key) != self.payload.app_addr {
            return Err(CertificateError::DerivedIdentityMismatch);
        }
        match root.verify_bytes(self.signed_payload.as_slice(), &self.signature) {
            Ok(()) => Ok(VerifiedApp(self.payload)),
            Err(error) => Err(error),
        }
    }

    /// Checks a registration that an online administrator issued.
    pub fn verify_with_admin(&self, admin: &VerifiedAdmin, expected_network: NetworkId) -> (verified:
        Result<VerifiedApp, CertificateError>)
        ensures
            match app_admin_verdict(self@, admin@, expected_network) {
                Ok(payload) => verified matches Ok(app) && app@ == payload,
                Err(reason) => verified matches Err(error) && error == reason,
            },
    {
        proof {
            use_type_invariant(self);
        }
        let issuer: &AdminCertificatePayload = admin.payload();
        if issuer.network_id != expected_network || self.payload.network_id != expected_network {
            return Err(CertificateError::WrongNetwork);
        }
        if issuer.permissions & ADMIN_PERMISSION_REGISTER_APP == 0 {
            return Err(CertificateError::PermissionDenied);
        }
        if !arrays_equal(&self.payload.issuer_key_id, &issuer.key_id) {
            return Err(CertificateError::WrongIssuer);
        }
        if derive_app_addr(&self.payload.app_root_public_key) != self.payload.app_addr {
            return Err(CertificateError::DerivedIdentityMismatch);
        }
        match admin.verify_bytes(self.signed_payload.as_slice(), &self.signature) {
            Ok(()) => Ok(VerifiedApp(self.payload)),
            Err(error) => Err(error),
        }
    }
}

/// A registration that was checked. Its view is the registration's payload.
#[derive(Clone, Copy, Debug)]
pub struct VerifiedApp(AppRegistrationPayload);

impl View for VerifiedApp {
    type V = AppRegistrationPayload;

    closed spec fn view(&self) -> AppRegistrationPayload {
        self.0
    }
}

impl VerifiedApp {
    pub fn payload(&self) -> (payload: &AppRegistrationPayload)
        ensures
            *payload == self@,
    {
        &self.0
    }
}

/// A registration that an administrator was allowed to issue for a checked request is accepted
/// under that administrator.
pub proof fn law_app_issue_by_admin_then_verify(
    secret: Seq<u8>,
    issuer: AdminCertificatePayload,
    request: Signed<AppRegistrationRequestPayload>,
    c: Signed<AppRegistrationPayload>,
)
    requires
        app_request_verdict(request, issuer.network_id) is Ok,
        app_issue_refusal(secret, issuer, request.payload) is None,
        c.payload == (AppRegistrationPayload {
            network_id: request.payload.network_id,
            app_addr: request.payload.app_addr,
            app_root_public_key: request.payload.app_root_public_key,
            policy: request.payload.policy,
            issuer_key_id: issuer.key_id,
        }),
        outside::ed25519_verifies(
            issuer.public_key@,
            app_registration_bytes(c.payload),
            c.signature@,
        ),
    ensures
        app_admin_verdict(c, issuer, issuer.network_id) == Ok::<
            AppRegistrationPayload,
            CertificateError,
        >(c.payload),
{
}

/// Which side of an application a member takes.
#[derive(Clone, Copy, Debug, PartialEq, Eq, Structural, Hash)]
pub enum AppRole {
    Server,
    Client,
}

/// What an application says of a member's part in it.
#[derive(Debug, PartialEq, Eq)]
pub struct AppBindingPayload {
    pub network_id: NetworkId,
    pub app_addr: AppAddr,
    pub subject: MemberId,
    pub role: AppRole,
    pub device_id: Option<DeviceId>,
    pub expires_at_ms: u64,
    pub services: Vec<ServiceId>,
}

/// The contents of a binding.
pub struct Binding {
    pub network_id: NetworkId,
    pub app_addr: AppAddr,
    pub subject: MemberId,
    pub role: AppRole,
    pub device_id: Option<DeviceId>,
    pub expires_at_ms: u64,
    pub services: Seq<ServiceId>,
}

impl View for AppBindingPayload {
    type V = Binding;

    open spec fn view(&self) -> Binding {
        Binding {
            network_id: self.network_id,
            app_addr: self.app_addr,
            subject: self.subject,
            role: self.role,
            device_id: self.device_id,
            expires_at_ms: self.expires_at_ms,
            services: self.services@,
        }
    }
}

impl Clone for AppBindingPayload {
    fn clone(&self) -> (copy: Self)
        ensures
            copy@ == self@,
    {
        let services: Vec<ServiceId> = self.services.clone();
        assert(services@ =~= self.services@);
        AppBindingPayload {
            network_id: self.network_id,
            app_addr: self.app_addr,
            subject: self.subject,
            role: self.role,
            device_id: self.device_id,
            expires_at_ms: self.expires_at_ms,
            services,
        }
    }
}

/// The first bytes of a binding.
pub const APP_BIND_MAGIC: [u8; 8] = [87, 86, 82, 66, 78, 68, 0, 1];

/// The length of a binding without its services and its signature.
pub const APP_BIND_FIXED_LEN: usize = 148;

/// Whether a role and a device belong together: clients name their device, servers have none.
pub open spec fn role_fits(role: AppRole, device: Option<DeviceId>) -> bool {
    (role == AppRole::Client) == (device is Some)
}

/// The byte that stands for a role.
pub open spec fn role_byte(role: AppRole) -> u8 {
    match role {
        AppRole::Server => 0,
        AppRole::Client => 1,
    }
}

/// The services' bytes one after the other.
pub open spec fn services_bytes(services: Seq<ServiceId>) -> Seq<u8> {
    Seq::new(16 * services.len(), |i: int| services[i / 16]@[i % 16])
}

/// The encoding of a binding: its fields in order, numbers big-endian, an absent device as zeros.
pub open spec fn binding_bytes(p: Binding) -> Seq<u8> {
    APP_BIND_MAGIC@ + p.network_id@ + p.app_addr@ + p.subject@ + seq![
        role_byte(p.role),
        if p.device_id is Some {
            1u8
        } else {
            0u8
        },
    ] + (match p.device_id {
        Some(device) => device@,
        None => wire::zeros(32),
    }) + wire::be(p.expires_at_ms as nat, 8) + wire::be(p.services.len(), 2) + services_bytes(
        p.services,
    )
}

/// The binding whose encoding is `b`, or why there is none: broken bytes, then too many services,
/// then a role that does not fit its device.
pub open spec fn read_binding(b: Seq<u8>) -> Result<Binding, CertificateError> {
    if b.len() < APP_BIND_FIXED_LEN || !wire::has_at(b, 0, APP_BIND_MAGIC@) || b[104] > 1 || b[105]
        > 1 || (b[105] == 0 && b.subrange(106, 138) != wire::zeros(32)) {
        Err(CertificateError::MalformedWire)
    } else if wire::u16_at(b, 146) > MAX_SERVICES_PER_BINDING {
        Err(CertificateError::TooManyServices)
    } else if b.len() != APP_BIND_FIXED_LEN + 16 * wire::u16_at(b, 146) {
        Err(CertificateError::MalformedWire)
    } else if b[104] != b[105] {
        Err(CertificateError::InvalidAppRole)
    } else {
        Ok(
            Binding {
                network_id: NetworkId(wire::array_at::<32>(b, 8)),
                app_addr: AppAddr(wire::array_at::<32>(b, 40)),
                subject: MemberId(wire::array_at::<32>(b, 72)),
                role: if b[104] == 0 {
                    AppRole::Server
                } else {
                    AppRole::Client
                },
                device_id: if b[105] == 0 {
                    None
                } else {
                    Some(DeviceId(wire::array_at::<32>(b, 106)))
                },
                expires_at_ms: wire::u64_at(b, 138),
                services: Seq::new(
                    wire::u16_at(b, 146) as nat,
                    |i: int| ServiceId(wire::array_at::<16>(b, 148 + 16 * i)),
                ),
            },
        )
    }
}

/// The signed binding that `b` encodes, or why there is none.
pub open spec fn read_signed_binding(b: Seq<u8>) -> Result<Signed<Binding>, CertificateError> {
    if b.len() < APP_BIND_FIXED_LEN + SIGNATURE_LEN {
        Err(CertificateError::MalformedWire)
    } else {
        match read_binding(b.subrange(0, b.len() - SIGNATURE_LEN)) {
            Ok(payload) => Ok(
                Signed { payload, signature: wire::array_at::<64>(b, b.len() - SIGNATURE_LEN) },
            ),
            Err(reason) => Err(reason),
        }
    }
}

/// The encoding of a signed binding.
pub open spec fn signed_binding_bytes(c: Signed<Binding>) -> Seq<u8> {
    binding_bytes(c.payload) + c.signature@
}

/// Encoding a binding and reading it back gives the same value, where its role fits its device
/// and it names no more services than it may.
pub proof fn law_binding_round_trip(p: Binding)
    requires
        role_fits(p.role, p.device_id),
        p.services.len() <= MAX_SERVICES_PER_BINDING,
    ensures
        read_binding(binding_bytes(p)) == Ok::<Binding, CertificateError>(p),
        binding_bytes(p).len() == APP_BIND_FIXED_LEN + 16 * p.services.len(),
{
    let b = binding_bytes(p);
    wire::lemma_pow256_values();
    wire::lemma_from_be_of_be(p.expires_at_ms as nat, 8);
    wire::lemma_from_be_of_be(p.services.len(), 2);
    wire::lemma_array_of(p.network_id.0);
    wire::lemma_array_of(p.app_addr.0);
    wire::lemma_array_of(p.subject.0);
    let device = match p.device_id {
        Some(device) => device@,
        None => wire::zeros(32),
    };
    assert(device.len() == 32);
    assert(b.subrange(0, 8) =~= APP_BIND_MAGIC@);
    assert(b.subrange(8, 40) =~= p.network_id@);
    assert(b.subrange(40, 72) =~= p.app_addr@);
    assert(b.subrange(72, 104) =~= p.subject@);
    assert(b.subrange(106, 138) =~= device);
    assert(b.subrange(138, 146) =~= wire::be(p.expires_at_ms as nat, 8));
    assert(b.subrange(146, 148) =~= wire::be(p.services.len(), 2));
    if let Some(device) = p.device_id {
        wire::lemma_array_of(device.0);
    }
    let read = read_binding(b)->Ok_0;
    assert forall|i: int| 0 <= i < p.services.len() implies #[trigger] read.services[i]
        == p.services[i] by {
        assert forall|j: int| 0 <= j < 16 implies #[trigger] b.subrange(
            148 + 16 * i,
            148 + 16 * i + 16,
        )[j] == p.services[i]@[j] by {
            assert(b[148 + (16 * i + j)] == services_bytes(p.services)[16 * i + j]);
        }
        assert(b.subrange(148 + 16 * i, 148 + 16 * i + 16) =~= p.services[i]@);
        wire::lemma_array_of(p.services[i].0);
    }
    assert(read.services =~= p.services);
}

/// Only one sequence of bytes reads as a given binding: its encoding. What is read has a role that
/// fits its device, and no more services than a binding may name.
pub proof fn law_binding_canonical(b: Seq<u8>)
    ensures
        read_binding(b) matches Ok(p) ==> binding_bytes(p) == b && role_fits(p.role, p.device_id)
            && p.services.len() <= MAX_SERVICES_PER_BINDING,
{
    if read_binding(b) is Ok {
        let p = read_binding(b)->Ok_0;
        wire::lemma_pow256_values();
        wire::lemma_array_exists::<32>(b.subrange(8, 40));
        wire::lemma_array_exists::<32>(b.subrange(40, 72));
        wire::lemma_array_exists::<32>(b.subrange(72, 104));
        wire::lemma_array_exists::<32>(b.subrange(106, 138));
        wire::lemma_be_of_from_be(b.subrange(138, 146));
        wire::lemma_be_of_from_be(b.subrange(146, 148));
        let tail = services_bytes(p.services);
        assert forall|i: int| 0 <= i < tail.len() implies #[trigger] tail[i] == b[148 + i] by {
            let k = i / 16;
            wire::lemma_array_exists::<16>(b.subrange(148 + 16 * k, 148 + 16 * k + 16));
            assert(p.services[k]@ == b.subrange(148 + 16 * k, 148 + 16 * k + 16));
            assert(p.services[k]@[i % 16] == b[148 + 16 * k + i % 16]);
        }
        assert(tail =~= b.subrange(148, b.len() as int));
        assert(binding_bytes(p) == b.subrange(0, 8) + b.subrange(8, 40) + b.subrange(40, 72)
            + b.subrange(72, 104) + seq![b[104], b[105]] + b.subrange(106, 138) + b.subrange(138, 146)
            + b.subrange(146, 148) + b.subrange(148, b.len() as int));
        assert(binding_bytes(p) =~= b);
    }
}

fn validate_app_role(role: AppRole, device: Option<DeviceId>) -> (valid: Result<
    (),
    CertificateError,
>)
    ensures
        valid == (if role_fits(role, device) {
            Ok(())
        } else {
            Err::<(), CertificateError>(CertificateError::InvalidAppRole)
        }),
{
    match (role, device) {
        (AppRole::Server, None) | (AppRole::Client, Some(_)) => Ok(()),
        _ => Err(CertificateError::InvalidAppRole),
    }
}

/// Writes the payload of a binding.
pub fn encode_app_binding_payload(payload: &AppBindingPayload) -> (bytes: Vec<u8>)
    ensures
        bytes@ == binding_bytes(payload@),
{
    let mut out: Vec<u8> = Vec::new();
    push_bytes(&mut out, APP_BIND_MAGIC.as_slice());
    push_bytes(&mut out, payload.network_id.as_bytes().as_slice());
    push_bytes(&mut out, payload.app_addr.as_bytes().as_slice());
    push_bytes(&mut out, payload.subject.as_bytes().as_slice());
    let ghost before = out@;
    match payload.role {
        AppRole::Server => out.push(0),
        AppRole::Client => out.push(1),
    }
    match payload.device_id {
        Some(device) => {
            out.push(1);
            assert(out@ =~= before + seq![role_byte(payload.role), 1u8]);
            push_bytes(&mut out, device.as_bytes().as_slice());
        },
        None => {
            out.push(0);
            assert(out@ =~= before + seq![role_byte(payload.role), 0u8]);
            let zero: [u8; 32] = [0; 32];
            assert(zero@ =~= wire::zeros(32));
            push_bytes(&mut out, zero.as_slice());
        },
    }
    push_be(&mut out, payload.expires_at_ms, 8);
    push_be(&mut out, payload.services.len() as u64, 2);
    let ghost head = out@;
    let mut i: usize = 0;
    assert(head + services_bytes(payload.services@.take(0)) =~= head);
    while i < payload.services.len()
        invariant
            i <= payload.services.len(),
            out@ == head + services_bytes(payload.services@.take(i as int)),
        decreases payload.services.len() - i,
    {
        push_bytes(&mut out, payload.services[i].as_bytes().as_slice());
        assert(services_bytes(payload.services@.take(i + 1)) =~= services_bytes(
            payload.services@.take(i as int),
        ) + payload.services@[i as int]@);
        assert(out@ =~= head + services_bytes(payload.services@.take(i + 1)));
        i += 1;
    }
    assert(payload.services@.take(i as int) =~= payload.services@);
    assert(out@ =~= binding_bytes(payload@));
    out
}

/// Reads exactly the encodings of the payloads of bindings.
pub fn decode_app_binding_payload(bytes: &[u8]) -> (payload: Result<
    AppBindingPayload,
    CertificateError,
>)
    ensures
        match read_binding(bytes@) {
            Ok(binding) => payload matches Ok(payload) && payload@ == binding,
            Err(reason) => payload matches Err(error) && error == reason,
        },
{
    if bytes.len() < APP_BIND_FIXED_LEN || !starts_at(bytes, 0, APP_BIND_MAGIC.as_slice()) {
        return Err(CertificateError::MalformedWire);
    }
    let role: AppRole = match bytes[104] {
        0 => AppRole::Server,
        1 => AppRole::Client,
        _ => {
            return Err(CertificateError::MalformedWire);
        },
    };
    let device_present: u8 = bytes[105];
    let device_bytes: [u8; 32] = read_array::<32>(bytes, 106);
    let device_id: Option<DeviceId> = if device_present == 0 && is_zero(&device_bytes) {
        None
    } else if device_present == 1 {
        Some(DeviceId::from_bytes(device_bytes))
    } else {
        return Err(CertificateError::MalformedWire);
    };
    let service_count: usize = read_u16(bytes, 146) as usize;
    if service_count > MAX_SERVICES_PER_BINDING {
        return Err(CertificateError::TooManyServices);
    }
    if bytes.len() != APP_BIND_FIXED_LEN + 16 * service_count {
        return Err(CertificateError::MalformedWire);
    }
    let mut services: Vec<ServiceId> = Vec::new();
    let mut i: usize = 0;
    while i < service_count
        invariant
            i <= service_count <= MAX_SERVICES_PER_BINDING,
            bytes.len() == APP_BIND_FIXED_LEN + 16 * service_count,
            services@.len() == i,
            forall|j: int|
                0 <= j < i ==> #[trigger] services@[j] == ServiceId(
                    wire::array_at::<16>(bytes@, 148 + 16 * j),
                ),
        decreases service_count - i,
    {
        services.push(ServiceId::from_bytes(read_array::<16>(bytes, 148 + 16 * i)));
        i += 1;
    }
    match validate_app_role(role, device_id) {
        Ok(()) => {},
        Err(error) => {
            return Err(error);
        },
    }
    let payload = AppBindingPayload {
        network_id: NetworkId::from_bytes(read_array::<32>(bytes, 8)),
        app_addr: AppAddr::from_bytes(read_array::<32>(bytes, 40)),
        subject: MemberId::from_bytes(read_array::<32>(bytes, 72)),
        role,
        device_id,
        expires_at_ms: read_u64(bytes, 138),
        services,
    };
    assert(payload@.services =~= read_binding(bytes@)->Ok_0.services);
    Ok(payload)
}

/// An application-signed part for one member, on one side of the application.
#[derive(Debug)]
pub struct AppBinding {
    payload: AppBindingPayload,
    signed_payload: Vec<u8>,
    signature: [u8; 64],
}

impl View for AppBinding {
    type V = Signed<Binding>;

    closed spec fn view(&self) -> Signed<Binding> {
        Signed { payload: self.payload@, signature: self.signature }
    }
}

impl Clone for AppBinding {
    fn clone(&self) -> (copy: Self)
        ensures
            copy@ == self@,
    {
        proof {
            use_type_invariant(self);
        }
        let payload: AppBindingPayload = self.payload.clone();
        let mut signed_payload: Vec<u8> = Vec::new();
        push_bytes(&mut signed_payload, self.signed_payload.as_slice());
        assert(signed_payload@ =~= self.signed_payload@);
        AppBinding { payload, signed_payload, signature: self.signature }
    }
}

/// What becomes of a binding that is checked against a registered application and a member: the
/// first of these reasons that applies, if one does.
pub open spec fn binding_verdict(
    c: Signed<Binding>,
    app: AppRegistrationPayload,
    member: MemberCertificatePayload,
    network: NetworkId,
    now_ms: u64,
) -> Result<(), CertificateError> {
    let p = c.payload;
    if p.network_id != network || app.network_id != network || member.network_id != network {
        Err(CertificateError::WrongNetwork)
    } else if p.app_addr != app.app_addr || p.subject != member.member_id {
        Err(CertificateError::BindingMismatch)
    } else if !role_fits(p.role, p.device_id) {
        Err(CertificateError::InvalidAppRole)
    } else if now_ms >= p.expires_at_ms {
        Err(CertificateError::Expired)
    } else if !outside::ed25519_key_ok(app.app_root_public_key@) {
        Err(CertificateError::MalformedKey)
    } else if !outside::ed25519_verifies(app.app_root_public_key@, binding_bytes(p), c.signature@) {
        Err(CertificateError::InvalidSignature)
    } else {
        Ok(())
    }
}

impl AppBinding {
    #[verifier::type_invariant]
    spec fn well_formed(self) -> bool {
        self.signed_payload@ == binding_bytes(self.payload@)
    }

    /// Gives a member a part in the application, if the role fits the device and the services are
    /// few enough.
    pub fn issue(
        app_root: &AppRootKey,
        network_id: NetworkId,
        subject: MemberId,
        role: AppRole,
        device_id: Option<DeviceId>,
        expires_at_ms: u64,
        services: Vec<ServiceId>,
    ) -> (issued: Result<Self, CertificateError>)
        ensures
            if !role_fits(role, device_id) {
                issued matches Err(error) && error == CertificateError::InvalidAppRole
            } else if services@.len() > MAX_SERVICES_PER_BINDING {
                issued matches Err(error) && error == CertificateError::TooManyServices
            } else {
                issued matches Ok(c) && c@.payload == (Binding {
                    network_id,
                    app_addr: keys::app_addr_of(outside::ed25519_public(app_root@)),
                    subject,
                    role,
                    device_id,
                    expires_at_ms,
                    services: services@,
                }) && c@.signature@ == outside::ed25519_signature(
                    app_root@,
                    binding_bytes(c@.payload),
                ) && outside::ed25519_verifies(
                    outside::ed25519_public(app_root@),
                    binding_bytes(c@.payload),
                    c@.signature@,
                )
            },
    {
        match validate_app_role(role, device_id) {
            Ok(()) => {},
            Err(error) => {
                return Err(error);
            },
        }
        if services.len() > MAX_SERVICES_PER_BINDING {
            return Err(CertificateError::TooManyServices);
        }
        let payload = AppBindingPayload {
            network_id,
            app_addr: app_root.app_addr(),
            subject,
            role,
            device_id,
            expires_at_ms,
            services,
        };
        let signed_payload: Vec<u8> = encode_app_binding_payload(&payload);
        let signature: [u8; 64] = app_root.sign(signed_payload.as_slice());
        Ok(AppBinding { payload, signed_payload, signature })
    }

    /// Reads exactly the encodings of signed bindings.
    pub fn from_bytes(bytes: &[u8]) -> (signed: Result<Self, CertificateError>)
        ensures
            match read_signed_binding(bytes@) {
                Ok(value) => signed matches Ok(signed) && signed@ == value,
                Err(reason) => signed matches Err(error) && error == reason,
            },
    {
        if bytes.len() < APP_BIND_FIXED_LEN + SIGNATURE_LEN {
            return Err(CertificateError::MalformedWire);
        }
        let payload_len: usize = bytes.len() - SIGNATURE_LEN;
        let signed_payload: Vec<u8> = copy_range(bytes, 0, payload_len);
        match decode_app_binding_payload(signed_payload.as_slice()) {
            Ok(payload) => {
                let signature: [u8; 64] = read_array::<64>(bytes, payload_len);
                proof {
                    law_binding_canonical(signed_payload@);
                }
                Ok(AppBinding { payload, signed_payload, signature })
            },
            Err(error) => Err(error),
        }
    }

    /// The exact bytes: the payload as signed, then the signature.
    pub fn to_bytes(&self) -> (bytes: Vec<u8>)
        ensures
            bytes@ == signed_binding_bytes(self@),
    {
        proof {
            use_type_invariant(self);
        }
        append_signature(self.signed_payload.as_slice(), &self.signature)
    }

    pub fn payload(&self) -> (payload: &AppBindingPayload)
        ensures
            payload@ == self@.payload,
    {
        &self.payload
    }

    /// Checks that the application gave this part to this member.
    pub fn verify(
        &self,
        app: &VerifiedApp,
        member: &VerifiedMember,
        expected_network: NetworkId,
        now_ms: u64,
    ) -> (valid: Result<(), CertificateError>)
        ensures
            valid == binding_verdict(self@, app@, member@, expected_network, now_ms),
    {
        proof {
            use_type_invariant(self);
        }
        let registered: &AppRegistrationPayload = app.payload();
        let admitted: &MemberCertificatePayload = member.payload();
        if self.payload.network_id != expected_network || registered.network_id != expected_network
            || admitted.network_id != expected_network {
            return Err(CertificateError::WrongNetwork);
        }
        if self.payload.app_addr != registered.app_addr || self.payload.subject
            != admitted.member_id {
            return Err(CertificateError::BindingMismatch);
        }
        match validate_app_role(self.payload.role, self.payload.device_id) {
            Ok(()) => {},
            Err(error) => {
                return Err(error);
            },
        }
        if now_ms >= self.payload.expires_at_ms {
            return Err(CertificateError::Expired);
        }
        if !verifying_key_ok(&registered.app_root_public_key) {
            return Err(CertificateError::MalformedKey);
        }
        verify_signature(
            &registered.app_root_public_key,
            self.signed_payload.as_slice(),
            &self.signature,
        )
    }
}

/// Encoding a signed binding and reading it back gives the same value, where its role fits its
/// device and it names no more services than it may.
pub proof fn law_signed_binding_round_trip(c: Signed<Binding>)
    requires
        role_fits(c.payload.role, c.payload.device_id),
        c.payload.services.len() <= MAX_SERVICES_PER_BINDING,
    ensures
        read_signed_binding(signed_binding_bytes(c)) == Ok::<Signed<Binding>, CertificateError>(c),
{
    let b = signed_binding_bytes(c);
    law_binding_round_trip(c.payload);
    wire::lemma_array_of(c.signature);
    assert(b.subrange(0, b.len() - SIGNATURE_LEN) =~= binding_bytes(c.payload));
    assert(b.subrange(b.len() - SIGNATURE_LEN, b.len() as int) =~= c.signature@);
}

/// Only one sequence of bytes reads as a given signed binding: its encoding.
pub proof fn law_signed_binding_canonical(b: Seq<u8>)
    ensures
        read_signed_binding(b) matches Ok(c) ==> signed_binding_bytes(c) == b,
{
    if read_signed_binding(b) is Ok {
        let n = b.len() - SIGNATURE_LEN;
        law_binding_canonical(b.subrange(0, n));
        wire::lemma_array_exists::<64>(b.subrange(n, b.len() as int));
        assert(b =~= b.subrange(0, n) + b.subrange(n, b.len() as int));
    }
}

/// A binding is good for the one application and the one member it names, and for no other.
pub proof fn law_app_binding_cannot_be_retargeted(
    c: Signed<Binding>,
    app: AppRegistrationPayload,
    member: MemberCertificatePayload,
    network: NetworkId,
    now_ms: u64,
)
    requires
        binding_verdict(c, app, member, network, now_ms) is Ok,
    ensures
        c.payload.app_addr == app.app_addr,
        c.payload.subject == member.member_id,
        forall|other: MemberCertificatePayload|
            other.member_id != member.member_id ==> #[trigger] binding_verdict(
                c,
                app,
                other,
                network,
                now_ms,
            ) is Err,
        forall|other: AppRegistrationPayload|
            other.app_addr != app.app_addr ==> #[trigger] binding_verdict(
                c,
                other,
                member,
                network,
                now_ms,
            ) is Err,
{
}

/// A binding that can be read has a role that fits its device.
pub(crate) proof fn lemma_read_binding_fits(raw: Seq<u8>)
    ensures
        read_signed_binding(raw) matches Ok(b) ==> role_fits(b.payload.role, b.payload.device_id),
{
}

} // verus!
