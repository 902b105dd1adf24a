//! Signing keys, the identities derived from them, and the errors of the certificate chain.
use crate::identifiers::{AppAddr, DeviceId, MemberId, NetworkId};
use crate::outside;
use crate::outside::{derive_key, public_key, random_array, sign, verify, verifying_key_ok};
use crate::wire;
use crate::wire::{push_bytes, read_array};
use vstd::prelude::*;

verus! {

/// The length of an Ed25519 signature.
pub const SIGNATURE_LEN: usize = 64;

/// Why a key, certificate or binding was refused.
#[derive(Clone, Copy, Debug, PartialEq, Eq, Structural)]
pub enum CertificateError {
    RandomnessUnavailable,
    MalformedKey,
    MalformedWire,
    InvalidSignature,
    WrongNetwork,
    WrongIssuer,
    NotYetValid,
    Expired,
    Revoked,
    DerivedIdentityMismatch,
    KeyMismatch,
    BindingMismatch,
    InvalidValidityWindow,
    InvalidAppRole,
    TooManyServices,
    PermissionDenied,
}

impl CertificateError {
    /// The message for people.
    pub open spec fn text(self) -> Seq<char> {
        match self {
            CertificateError::RandomnessUnavailable => "secure randomness is unavailable"@,
            CertificateError::MalformedKey => "malformed public key"@,
            CertificateError::MalformedWire => "malformed certificate wire bytes"@,
            CertificateError::InvalidSignature => "signature verification failed"@,
            CertificateError::WrongNetwork => "certificate belongs to a different network"@,
            CertificateError::WrongIssuer => "certificate issuer does not match network root"@,
            CertificateError::NotYetValid => "certificate is not valid yet"@,
            CertificateError::Expired => "certificate or binding is expired"@,
            CertificateError::Revoked => "member certificate was revoked"@,
            CertificateError::DerivedIdentityMismatch => {
                "derived identity does not match encoded identity"@
            },
            CertificateError::KeyMismatch => "private/public key does not match certificate"@,
            CertificateError::BindingMismatch => {
                "binding does not match authenticated member or endpoint"@
            },
            CertificateError::InvalidValidityWindow => "invalid certificate validity window"@,
            CertificateError::InvalidAppRole => {
                "client bindings require DeviceId; server bindings forbid it"@
            },
            CertificateError::TooManyServices => "app binding exceeds service limit"@,
            CertificateError::PermissionDenied => {
                "administrator certificate lacks the required permission"@
            },
        }
    }

    /// The message for people.
    pub fn message(&self) -> (text: &'static str)
        ensures
            text@ == self.text(),
    {
        match self {
            CertificateError::RandomnessUnavailable => "secure randomness is unavailable",
            CertificateError::MalformedKey => "malformed public key",
            CertificateError::MalformedWire => "malformed certificate wire bytes",
            CertificateError::InvalidSignature => "signature verification failed",
            CertificateError::WrongNetwork => "certificate belongs to a different network",
            CertificateError::WrongIssuer => "certificate issuer does not match network root",
            CertificateError::NotYetValid => "certificate is not valid yet",
            CertificateError::Expired => "certificate or binding is expired",
            CertificateError::Revoked => "member certificate was revoked",
            CertificateError::DerivedIdentityMismatch => {
                "derived identity does not match encoded identity"
            },
            CertificateError::KeyMismatch => "private/public key does not match certificate",
            CertificateError::BindingMismatch => {
                "binding does not match authenticated member or endpoint"
            },
            CertificateError::InvalidValidityWindow => "invalid certificate validity window",
            CertificateError::InvalidAppRole => {
                "client bindings require DeviceId; server bindings forbid it"
            },
            CertificateError::TooManyServices => "app binding exceeds service limit",
            CertificateError::PermissionDenied => {
                "administrator certificate lacks the required permission"
            },
        }
    }
}

/// A payload with the signature over its encoding.
pub struct Signed<P> {
    pub payload: P,
    pub signature: [u8; 64],
}

/// The network that the root key `key` founds.
pub open spec fn network_id_of(key: Seq<u8>) -> NetworkId {
    NetworkId(wire::array_of::<32>(outside::blake3_derived("weaver.network.v1"@, key)))
}

/// The identity of the member who signs with `key` in `network`.
pub open spec fn member_id_of(network: NetworkId, key: Seq<u8>) -> MemberId {
    MemberId(wire::array_of::<32>(outside::blake3_derived("weaver.member.v1"@, network@ + key)))
}

/// The address of the application whose root key is `key`.
pub open spec fn app_addr_of(key: Seq<u8>) -> AppAddr {
    AppAddr(wire::array_of::<32>(outside::blake3_derived("weaver.app.v1"@, key)))
}

/// The device identity of the holder of `key` for one application in one network.
pub open spec fn device_id_of(network: NetworkId, app: AppAddr, key: Seq<u8>) -> DeviceId {
    DeviceId(
        wire::array_of::<32>(outside::blake3_derived("weaver.device.v1"@, network@ + app@ + key)),
    )
}

/// The short identifier of `key` for the purpose `context`.
pub open spec fn key_id_of(context: Seq<char>, key: Seq<u8>) -> [u8; 16] {
    wire::array_of::<16>(outside::blake3_derived(context, key).subrange(0, 16))
}

/// The short identifier of a network root key.
pub open spec fn root_key_id(key: Seq<u8>) -> [u8; 16] {
    key_id_of("weaver.network-root-key-id.v1"@, key)
}

/// The short identifier of an online administrator's key.
pub open spec fn admin_key_id(key: Seq<u8>) -> [u8; 16] {
    key_id_of("weaver.online-admin-key-id.v1"@, key)
}

/// The bytes that a member signs to vouch for a presence payload: a domain label, then the
/// payload.
pub open spec fn presence_transcript(payload: Seq<u8>) -> Seq<u8> {
    wire::utf8("weaver.member-presence-signature.v1\0"@) + payload
}

/// The network that a root key founds.
pub fn derive_network_id(root_public_key: &[u8; 32]) -> (id: NetworkId)
    ensures
        id == network_id_of(root_public_key@),
{
    let key: [u8; 32] = derive_key("weaver.network.v1", root_public_key.as_slice());
    proof {
        wire::lemma_array_of(key);
    }
    NetworkId::from_bytes(key)
}

/// The identity of the member who signs with a key in a network.
pub fn derive_member_id(network_id: NetworkId, signing_public_key: &[u8; 32]) -> (id: MemberId)
    ensures
        id == member_id_of(network_id, signing_public_key@),
{
    let mut material: Vec<u8> = Vec::new();
    push_bytes(&mut material, network_id.as_bytes().as_slice());
    push_bytes(&mut material, signing_public_key.as_slice());
    assert(material@ =~= network_id@ + signing_public_key@);
    let key: [u8; 32] = derive_key("weaver.member.v1", material.as_slice());
    proof {
        wire::lemma_array_of(key);
    }
    MemberId::from_bytes(key)
}

/// The address of the application with this root key.
pub fn derive_app_addr(app_root_public_key: &[u8; 32]) -> (addr: AppAddr)
    ensures
        addr == app_addr_of(app_root_public_key@),
{
    let key: [u8; 32] = derive_key("weaver.app.v1", app_root_public_key.as_slice());
    proof {
        wire::lemma_array_of(key);
    }
    AppAddr::from_bytes(key)
}

/// The device identity of a key holder for one application in one network.
pub fn derive_device_id(
    network_id: NetworkId,
    app_addr: AppAddr,
    member_signing_public_key: &[u8; 32],
) -> (id: DeviceId)
    ensures
        id == device_id_of(network_id, app_addr, member_signing_public_key@),
{
    let mut material: Vec<u8> = Vec::new();
    push_bytes(&mut material, network_id.as_bytes().as_slice());
    push_bytes(&mut material, app_addr.as_bytes().as_slice());
    push_bytes(&mut material, member_signing_public_key.as_slice());
    assert(material@ =~= network_id@ + app_addr@ + member_signing_public_key@);
    let key: [u8; 32] = derive_key("weaver.device.v1", material.as_slice());
    proof {
        wire::lemma_array_of(key);
    }
    DeviceId::from_bytes(key)
}

fn derive_key_id(context: &str, key: &[u8; 32]) -> (id: [u8; 16])
    ensures
        id == key_id_of(context@, key@),
{
    let derived: [u8; 32] = derive_key(context, key.as_slice());
    read_array::<16>(derived.as_slice(), 0)
}

/// The short identifier of an online administrator's key.
pub fn derive_admin_key_id(key: &[u8; 32]) -> (id: [u8; 16])
    ensures
        id == admin_key_id(key@),
{
    derive_key_id("weaver.online-admin-key-id.v1", key)
}

/// When a validity window refuses the time `now`.
pub open spec fn time_verdict(not_before: u64, expires: u64, now: u64) -> Result<
    (),
    CertificateError,
> {
    if now < not_before {
        Err(CertificateError::NotYetValid)
    } else if now >= expires {
        Err(CertificateError::Expired)
    } else {
        Ok(())
    }
}

pub(crate) fn validate_time(not_before: u64, expires: u64, now: u64) -> (valid: Result<
    (),
    CertificateError,
>)
    ensures
        valid == time_verdict(not_before, expires, now),
{
    if now < not_before {
        Err(CertificateError::NotYetValid)
    } else if now >= expires {
        Err(CertificateError::Expired)
    } else {
        Ok(())
    }
}

/// Checks a signature under a key.
pub(crate) fn verify_signature(key: &[u8; 32], payload: &[u8], signature: &[u8; 64]) -> (valid:
    Result<(), CertificateError>)
    ensures
        valid == (if outside::ed25519_verifies(key@, payload@, signature@) {
            Ok(())
        } else {
            Err::<(), CertificateError>(CertificateError::InvalidSignature)
        }),
{
    if verify(key, payload, signature) {
        Ok(())
    } else {
        Err(CertificateError::InvalidSignature)
    }
}

/// The payload bytes followed by the signature.
pub(crate) fn append_signature(payload: &[u8], signature: &[u8; 64]) -> (bytes: Vec<u8>)
    ensures
        bytes@ == payload@ + signature@,
{
    let mut bytes: Vec<u8> = Vec::new();
    push_bytes(&mut bytes, payload);
    push_bytes(&mut bytes, signature.as_slice());
    assert(bytes@ =~= payload@ + signature@);
    bytes
}

pub(crate) fn presence_signature_transcript(payload: &[u8]) -> (transcript: Vec<u8>)
    ensures
        transcript@ == presence_transcript(payload@),
{
    let mut transcript: Vec<u8> = Vec::new();
    push_bytes(&mut transcript, "weaver.member-presence-signature.v1\0".as_bytes());
    push_bytes(&mut transcript, payload);
    assert(transcript@ =~= presence_transcript(payload@));
    transcript
}

/// An Ed25519 signing key. Its view is the secret.
pub struct SigningKeypair {
    secret: [u8; 32],
}

impl View for SigningKeypair {
    type V = Seq<u8>;

    closed spec fn view(&self) -> Seq<u8> {
        self.secret@
    }
}

impl SigningKeypair {
    /// A key from the system's randomness. Which key it is rests on chance.
    pub fn generate() -> (key: Result<Self, CertificateError>)
        ensures
            key matches Err(error) ==> error == CertificateError::RandomnessUnavailable,
            key matches Ok(key) ==> key@.len() == 32,
    {
        match random_array::<32>() {
            Some(bytes) => Ok(SigningKeypair::from_bytes(&bytes)),
            None => Err(CertificateError::RandomnessUnavailable),
        }
    }

    /// The key with these secret bytes.
    pub fn from_bytes(bytes: &[u8; 32]) -> (key: Self)
        ensures
            key@ == bytes@,
    {
        SigningKeypair { secret: *bytes }
    }

    /// The secret bytes.
    pub fn to_bytes(&self) -> (bytes: [u8; 32])
        ensures
            bytes@ == self@,
    {
        self.secret
    }

    /// The public key, which is always a valid one.
    pub fn public_bytes(&self) -> (key: [u8; 32])
        ensures
            key@ == outside::ed25519_public(self@),
            outside::ed25519_key_ok(key@),
    {
        public_key(&self.secret)
    }

    /// Signs exact bytes.
    pub(crate) fn sign(&self, payload: &[u8]) -> (signature: [u8; 64])
        ensures
            signature@ == outside::ed25519_signature(self@, payload@),
            outside::ed25519_verifies(outside::ed25519_public(self@), payload@, signature@),
    {
        sign(&self.secret, payload)
    }

    /// Signs an exact runtime presence payload under a domain of its own.
    pub fn sign_presence(&self, exact_payload: &[u8]) -> (signature: [u8; 64])
        ensures
            signature@ == outside::ed25519_signature(self@, presence_transcript(exact_payload@)),
            outside::ed25519_verifies(
                outside::ed25519_public(self@),
                presence_transcript(exact_payload@),
                signature@,
            ),
    {
        let transcript: Vec<u8> = presence_signature_transcript(exact_payload);
        self.sign(transcript.as_slice())
    }
}

/// The public half of a network root key. Its view is the key's bytes, from which the network
/// and the key's short identifier follow.
#[derive(Clone, Copy, Debug)]
pub struct NetworkRootPublic {
    key: [u8; 32],
    network_id: NetworkId,
    key_id: [u8; 16],
}

impl View for NetworkRootPublic {
    type V = Seq<u8>;

    closed spec fn view(&self) -> Seq<u8> {
        self.key@
    }
}

impl NetworkRootPublic {
    #[verifier::type_invariant]
    spec fn well_formed(self) -> bool {
        &&& outside::ed25519_key_ok(self.key@)
        &&& self.network_id == network_id_of(self.key@)
        &&& self.key_id == root_key_id(self.key@)
    }

    /// Accepts exactly the bytes of public keys.
    pub fn from_bytes(bytes: &[u8; 32]) -> (root: Result<Self, CertificateError>)
        ensures
            match root {
                Ok(root) => outside::ed25519_key_ok(bytes@) && root@ == bytes@,
                Err(error) => !outside::ed25519_key_ok(bytes@) && error
                    == CertificateError::MalformedKey,
            },
    {
        if !verifying_key_ok(bytes) {
            return Err(CertificateError::MalformedKey);
        }
        Ok(
            NetworkRootPublic {
                key: *bytes,
                network_id: derive_network_id(bytes),
                key_id: derive_key_id("weaver.network-root-key-id.v1", bytes),
            },
        )
    }

    pub fn as_bytes(&self) -> (bytes: [u8; 32])
        ensures
            bytes@ == self@,
    {
        self.key
    }

    pub fn network_id(&self) -> (id: NetworkId)
        ensures
            id == network_id_of(self@),
    {
        proof {
            use_type_invariant(self);
        }
        self.network_id
    }

    pub fn key_id(&self) -> (id: [u8; 16])
        ensures
            id == root_key_id(self@),
    {
        proof {
            use_type_invariant(self);
        }
        self.key_id
    }

    /// Checks a signature of the root over exact bytes.
    pub fn verify_bytes(&self, payload: &[u8], signature: &[u8; 64]) -> (valid: Result<
        (),
        CertificateError,
    >)
        ensures
            valid == (if outside::ed25519_verifies(self@, payload@, signature@) {
                Ok(())
            } else {
                Err::<(), CertificateError>(CertificateError::InvalidSignature)
            }),
    {
        verify_signature(&self.key, payload, signature)
    }
}

/// The root key that founds a network. Its view is the secret.
pub struct NetworkRootKey(SigningKeypair);

impl View for NetworkRootKey {
    type V = Seq<u8>;

    closed spec fn view(&self) -> Seq<u8> {
        self.0@
    }
}

impl NetworkRootKey {
    /// A key from the system's randomness. Which key it is rests on chance.
    pub fn generate() -> (key: Result<Self, CertificateError>)
        ensures
            key matches Err(error) ==> error == CertificateError::RandomnessUnavailable,
            key matches Ok(key) ==> key@.len() == 32,
    {
        match SigningKeypair::generate() {
            Ok(key) => Ok(NetworkRootKey(key)),
            Err(error) => Err(error),
        }
    }

    pub fn from_bytes(bytes: &[u8; 32]) -> (key: Self)
        ensures
            key@ == bytes@,
    {
        NetworkRootKey(SigningKeypair::from_bytes(bytes))
    }

    pub fn to_bytes(&self) -> (bytes: [u8; 32])
        ensures
            bytes@ == self@,
    {
        self.0.to_bytes()
    }

    /// The public half, which every root key has.
    pub fn public(&self) -> (root: NetworkRootPublic)
        ensures
            root@ == outside::ed25519_public(self@),
    {
        let bytes: [u8; 32] = self.0.public_bytes();
        NetworkRootPublic {
            key: bytes,
            network_id: derive_network_id(&bytes),
            key_id: derive_key_id("weaver.network-root-key-id.v1", &bytes),
        }
    }

    /// Signs exact bytes.
    pub fn sign_bytes(&self, payload: &[u8]) -> (signature: [u8; 64])
        ensures
            signature@ == outside::ed25519_signature(self@, payload@),
            outside::ed25519_verifies(outside::ed25519_public(self@), payload@, signature@),
    {
        self.0.sign(payload)
    }
}

/// The online authority's key for ordinary configuration commits. Its view is the secret.
///
/// Its public key is authorized by a certificate that the root signed. The root itself is needed
/// only to found a network, to recover it and to rotate administrator keys.
pub struct OnlineAdminKey(SigningKeypair);

impl View for OnlineAdminKey {
    type V = Seq<u8>;

    closed spec fn view(&self) -> Seq<u8> {
        self.0@
    }
}

impl OnlineAdminKey {
    /// A key from the system's randomness. Which key it is rests on chance.
    pub fn generate() -> (key: Result<Self, CertificateError>)
        ensures
            key matches Err(error) ==> error == CertificateError::RandomnessUnavailable,
            key matches Ok(key) ==> key@.len() == 32,
    {
        match SigningKeypair::generate() {
            Ok(key) => Ok(OnlineAdminKey(key)),
            Err(error) => Err(error),
        }
    }

    pub fn from_bytes(bytes: &[u8; 32]) -> (key: Self)
        ensures
            key@ == bytes@,
    {
        OnlineAdminKey(SigningKeypair::from_bytes(bytes))
    }

    pub fn to_bytes(&self) -> (bytes: [u8; 32])
        ensures
            bytes@ == self@,
    {
        self.0.to_bytes()
    }

    pub fn public_bytes(&self) -> (key: [u8; 32])
        ensures
            key@ == outside::ed25519_public(self@),
            outside::ed25519_key_ok(key@),
    {
        self.0.public_bytes()
    }

    pub fn key_id(&self) -> (id: [u8; 16])
        ensures
            id == admin_key_id(outside::ed25519_public(self@)),
    {
        derive_admin_key_id(&self.public_bytes())
    }

    /// Signs exact bytes.
    pub fn sign_bytes(&self, payload: &[u8]) -> (signature: [u8; 64])
        ensures
            signature@ == outside::ed25519_signature(self@, payload@),
            outside::ed25519_verifies(outside::ed25519_public(self@), payload@, signature@),
    {
        self.0.sign(payload)
    }
}

/// The root key of one application. Its view is the secret.
pub struct AppRootKey(SigningKeypair);

impl View for AppRootKey {
    type V = Seq<u8>;

    closed spec fn view(&self) -> Seq<u8> {
        self.0@
    }
}

impl AppRootKey {
    /// A key from the system's randomness. Which key it is rests on chance.
    pub fn generate() -> (key: Result<Self, CertificateError>)
        ensures
            key matches Err(error) ==> error == CertificateError::RandomnessUnavailable,
            key matches Ok(key) ==> key@.len() == 32,
    {
        match SigningKeypair::generate() {
            Ok(key) => Ok(AppRootKey(key)),
            Err(error) => Err(error),
        }
    }

    pub fn from_bytes(bytes: &[u8; 32]) -> (key: Self)
        ensures
            key@ == bytes@,
    {
        AppRootKey(SigningKeypair::from_bytes(bytes))
    }

    pub fn to_bytes(&self) -> (bytes: [u8; 32])
        ensures
            bytes@ == self@,
    {
        self.0.to_bytes()
    }

    pub fn public_bytes(&self) -> (key: [u8; 32])
        ensures
            key@ == outside::ed25519_public(self@),
            outside::ed25519_key_ok(key@),
    {
        self.0.public_bytes()
    }

    /// The application's address.
    pub fn app_addr(&self) -> (addr: AppAddr)
        ensures
            addr == app_addr_of(outside::ed25519_public(self@)),
    {
        derive_app_addr(&self.public_bytes())
    }

    /// Signs exact bytes.
    pub(crate) fn sign(&self, payload: &[u8]) -> (signature: [u8; 64])
        ensures
            signature@ == outside::ed25519_signature(self@, payload@),
            outside::ed25519_verifies(outside::ed25519_public(self@), payload@, signature@),
    {
        self.0.sign(payload)
    }
}

} // verus!
