//! Joining a network: what is asked for, what is accepted, and what is stored.
use crate::config::chain::{ChainExpectation, ConfigHead};
use crate::config::envelope;
use crate::config::envelope::{ConfigError, EncryptedConfigEnvelope};
use crate::config::sealing;
use crate::config::sealing::{MemberEncryptionKeypair, OpenedNetworkConfig};
use crate::crypto::admin::VerifiedAdmin;
use crate::crypto::endpoint;
use crate::crypto::endpoint::EndpointBindingPayload;
use crate::crypto::join;
use crate::crypto::join::{JoinRequestPayload, PreparedJoinRequest, VerifiedJoinRequest};
use crate::crypto::keys;
use crate::crypto::keys::{CertificateError, NetworkRootPublic, Signed, SigningKeypair};
use crate::crypto::member;
use crate::crypto::member::{MemberCertificate, MemberCertificatePayload, MemberRoles};
use crate::identifiers::NetworkId;
use crate::net::config_state;
use crate::net::config_state::{
    copied, encode_head, verified_signer, Changed, Expected, StoreChange, StoreWrite, Written,
    CONFIG_ENVELOPE_KEY, CONFIG_HEAD_KEY, CONFIG_SIGNER_CERTIFICATE_KEY,
};
use crate::outside;
use crate::outside::{derive_key, endpoint_public_key, random_array};
use crate::text::joined;
use crate::wire;
use crate::wire::{arrays_equal, copy_range, push_bytes, read_array};
use vstd::prelude::*;

verus! {

/// Under which key a prepared request to join is stored.
pub const KEY_PREPARED_JOIN: [u8; 16] = [
    106,
    111,
    105,
    110,
    47,
    112,
    114,
    101,
    112,
    97,
    114,
    101,
    100,
    47,
    118,
    49,
];

/// Under which key the member's certificate is stored.
pub const KEY_MEMBER_CERTIFICATE: [u8; 25] = [
    109,
    101,
    109,
    98,
    101,
    114,
    115,
    104,
    105,
    112,
    47,
    99,
    101,
    114,
    116,
    105,
    102,
    105,
    99,
    97,
    116,
    101,
    47,
    118,
    49,
];

/// Under which key the member's endpoint binding is stored.
pub const KEY_ENDPOINT_BINDING: [u8; 30] = [
    109,
    101,
    109,
    98,
    101,
    114,
    115,
    104,
    105,
    112,
    47,
    101,
    110,
    100,
    112,
    111,
    105,
    110,
    116,
    45,
    98,
    105,
    110,
    100,
    105,
    110,
    103,
    47,
    118,
    49,
];

/// Why a network cannot be joined.
#[derive(Clone, Copy, Debug, PartialEq, Eq)]
pub enum MembershipError {
    InsecureStoreCapabilities,
    AlreadyJoined,
    NotPrepared,
    RandomnessUnavailable,
    CorruptSecret,
    SecretMismatch(&'static str),
    TicketMemberMismatch,
    Crypto(CertificateError),
    Config(ConfigError),
}

impl MembershipError {
    /// The message for people.
    pub open spec fn text(self) -> Seq<char> {
        match self {
            MembershipError::InsecureStoreCapabilities => {
                "state/secret stores do not provide required production capabilities"@
            },
            MembershipError::AlreadyJoined => "this node is already joined to the network"@,
            MembershipError::NotPrepared => "no prepared join request exists for this network"@,
            MembershipError::RandomnessUnavailable => "secure randomness is unavailable"@,
            MembershipError::CorruptSecret => "stored secret is corrupt"@,
            MembershipError::SecretMismatch(which) => {
                "stored "@ + which@ + " secret differs from the prepared request"@
            },
            MembershipError::TicketMemberMismatch => {
                "ticket member certificate differs from the prepared request"@
            },
            MembershipError::Crypto(error) => error.text(),
            MembershipError::Config(error) => error.text(),
        }
    }

    /// The message for people.
    pub fn message(&self) -> (text: String)
        ensures
            text@ == self.text(),
    {
        match self {
            MembershipError::InsecureStoreCapabilities => {
                "state/secret stores do not provide required production capabilities".to_owned()
            },
            MembershipError::AlreadyJoined => {
                "this node is already joined to the network".to_owned()
            },
            MembershipError::NotPrepared => {
                "no prepared join request exists for this network".to_owned()
            },
            MembershipError::RandomnessUnavailable => "secure randomness is unavailable".to_owned(),
            MembershipError::CorruptSecret => "stored secret is corrupt".to_owned(),
            MembershipError::SecretMismatch(which) => {
                joined(joined("stored ", which).as_str(), " secret differs from the prepared request")
            },
            MembershipError::TicketMemberMismatch => {
                "ticket member certificate differs from the prepared request".to_owned()
            },
            MembershipError::Crypto(error) => error.message().to_owned(),
            MembershipError::Config(error) => error.message(),
        }
    }
}

/// What the places where state and secrets are kept can do.
#[derive(Clone, Copy, Debug, PartialEq, Eq, Structural)]
pub struct StoreCapabilities {
    pub atomic_batches: bool,
    pub durable_commits: bool,
    pub secrets_in_memory_only: bool,
}

/// Whether places to keep state and secrets are good enough: several writes must take effect
/// together, and unless this is only a test, what was written must last and secrets must not be
/// in memory only.
pub open spec fn stores_ok(stores: StoreCapabilities, allow_insecure: bool) -> bool {
    &&& stores.atomic_batches
    &&& stores.durable_commits || allow_insecure
    &&& !stores.secrets_in_memory_only || allow_insecure
}

/// Checks that places to keep state and secrets are good enough.
pub fn stores_acceptable(stores: StoreCapabilities, allow_insecure_test_stores: bool) -> (ok: bool)
    ensures
        ok == stores_ok(stores, allow_insecure_test_stores),
{
    stores.atomic_batches && (stores.durable_commits || allow_insecure_test_stores) && (
    !stores.secrets_in_memory_only || allow_insecure_test_stores)
}

/// The name under which a member's secret is kept.
pub fn member_secret_id(network_id: NetworkId, label: &[u8]) -> (id: [u8; 32])
    ensures
        id@ == outside::blake3_derived("weaver.member.secret-id.v1"@, network_id@ + label@),
{
    let mut material: Vec<u8> = Vec::new();
    push_bytes(&mut material, network_id.0.as_slice());
    push_bytes(&mut material, label);
    assert(material@ =~= network_id@ + label@);
    derive_key("weaver.member.secret-id.v1", material.as_slice())
}

/// The bytes of a kept secret, which must be as long as a key.
pub fn secret_key_bytes(secret: &[u8]) -> (key: Option<[u8; 32]>)
    ensures
        match key {
            Some(key) => key@ == secret@,
            None => secret@.len() != 32,
        },
{
    if secret.len() != 32 {
        return None;
    }
    proof {
        assert(secret@.subrange(0, 32) =~= secret@);
        wire::lemma_array_exists::<32>(secret@);
    }
    Some(read_array::<32>(secret, 0))
}

/// What the holder of these secret keys prepares with a nonce: a request that names their public
/// keys and a claim to the endpoint, both signed. It is refused where one of the keys or the nonce
/// is all zero.
pub open spec fn composed(
    network: NetworkId,
    signing: Seq<u8>,
    encryption: Seq<u8>,
    endpoint: Seq<u8>,
    nonce: [u8; 32],
    roles: MemberRoles,
    expires_at_ms: u64,
) -> Result<join::PreparedJoin, MembershipError> {
    let encryption_key = wire::array_of::<32>(outside::hpke_public(encryption));
    let endpoint_key = wire::array_of::<32>(outside::endpoint_public(endpoint));
    if join::has_zero_key(encryption_key, endpoint_key, nonce) {
        Err(MembershipError::Crypto(CertificateError::MalformedKey))
    } else {
        let request = join::join_created(
            network,
            signing,
            encryption_key,
            endpoint_key,
            nonce,
            roles,
            expires_at_ms,
        );
        let claim = EndpointBindingPayload {
            network_id: network,
            member_id: keys::member_id_of(network, outside::ed25519_public(signing)),
            endpoint_id: endpoint_key,
            sequence: 0,
            expires_at_ms,
        };
        Ok(
            join::PreparedJoin {
                request: Signed {
                    payload: request,
                    signature: wire::array_of(
                        outside::ed25519_signature(signing, join::join_bytes(request)),
                    ),
                },
                endpoint_binding: Signed {
                    payload: claim,
                    signature: wire::array_of(
                        outside::ed25519_signature(signing, endpoint::endpoint_bytes(claim)),
                    ),
                },
            },
        )
    }
}

/// Whether a result is a request to join that the holder of these secret keys prepared with a
/// nonce: it names their public keys, and is accepted until it expires.
pub open spec fn prepared_with(
    network: NetworkId,
    signing: Seq<u8>,
    encryption: Seq<u8>,
    endpoint: Seq<u8>,
    nonce: [u8; 32],
    roles: MemberRoles,
    expires_at_ms: u64,
    prepared: Result<PreparedJoinRequest, MembershipError>,
) -> bool {
    match composed(network, signing, encryption, endpoint, nonce, roles, expires_at_ms) {
        Err(reason) => prepared matches Err(error) && error == reason,
        Ok(value) => {
            &&& prepared matches Ok(prepared)
            &&& prepared@ == value
            &&& keys_verdict(value.request.payload, encryption, endpoint, signing) is Ok
            &&& forall|now_ms: u64| #[trigger]
                join::prepared_verdict(value, network, now_ms) == (if now_ms >= expires_at_ms {
                    Err(CertificateError::Expired)
                } else {
                    Ok::<JoinRequestPayload, CertificateError>(value.request.payload)
                })
        },
    }
}

/// What becomes of a prepared request when a ticket comes.
pub open spec fn request_verdict(prepared: Option<Seq<u8>>, network: NetworkId, now_ms: u64) -> Result<
    JoinRequestPayload,
    MembershipError,
> {
    match prepared {
        None => Err(MembershipError::NotPrepared),
        Some(bytes) => match join::read_prepared(bytes) {
            None => Err(MembershipError::Crypto(CertificateError::MalformedWire)),
            Some(prepared) => match join::prepared_verdict(prepared, network, now_ms) {
                Err(e) => Err(MembershipError::Crypto(e)),
                Ok(request) => Ok(request),
            },
        },
    }
}

/// What a ticket to join brings.
#[derive(Debug)]
pub struct TicketContents {
    pub admin_certificate: Vec<u8>,
    pub embedded_config: Vec<u8>,
    pub config_head: ConfigHead,
    pub member_certificate: Vec<u8>,
    pub endpoint_binding: Vec<u8>,
}

/// The bytes of what a ticket brings.
pub struct Ticket {
    pub admin_certificate: Seq<u8>,
    pub embedded_config: Seq<u8>,
    pub config_head: ConfigHead,
    pub member_certificate: Seq<u8>,
    pub endpoint_binding: Seq<u8>,
}

impl View for TicketContents {
    type V = Ticket;

    open spec fn view(&self) -> Ticket {
        Ticket {
            admin_certificate: self.admin_certificate@,
            embedded_config: self.embedded_config@,
            config_head: self.config_head,
            member_certificate: self.member_certificate@,
            endpoint_binding: self.endpoint_binding@,
        }
    }
}

/// What is written when a network is joined; the prepared request is deleted with it.
#[derive(Debug)]
pub struct JoinCommit {
    pub envelope: Vec<u8>,
    pub head: ConfigHead,
    pub signer: Vec<u8>,
    pub member_certificate: Vec<u8>,
    pub endpoint_binding: Vec<u8>,
}

/// What is put under a key that is free.
pub open spec fn put_new(key: Seq<u8>, bytes: Seq<u8>) -> Changed {
    Changed::Put(Written { key, bytes, expected: Expected::Missing })
}

/// The changes that joining is made of: what is written comes under keys that are free, and the
/// prepared request is deleted at the version that was read.
pub open spec fn join_changes(commit: JoinCommit, prepared_version: u64) -> Seq<Changed> {
    seq![
        put_new(CONFIG_ENVELOPE_KEY@, commit.envelope@),
        put_new(CONFIG_HEAD_KEY@, config_state::head_bytes(commit.head)),
        put_new(CONFIG_SIGNER_CERTIFICATE_KEY@, commit.signer@),
        put_new(KEY_MEMBER_CERTIFICATE@, commit.member_certificate@),
        put_new(KEY_ENDPOINT_BINDING@, commit.endpoint_binding@),
        Changed::Delete {
            key: KEY_PREPARED_JOIN@,
            expected: Expected::Exact(prepared_version),
        },
    ]
}

fn put_missing(key: &[u8], bytes: Vec<u8>) -> (change: StoreChange)
    ensures
        change@ == put_new(key@, bytes@),
{
    StoreChange::Put(StoreWrite { key: copied(key), bytes, expected: Expected::Missing })
}

impl JoinCommit {
    /// The changes to make, all together or not at all; `prepared_version` is the version of the
    /// prepared request that was read.
    pub fn changes(&self, prepared_version: u64) -> (changes: Vec<StoreChange>)
        ensures
            config_state::change_views(changes@) == join_changes(*self, prepared_version),
    {
        let mut changes: Vec<StoreChange> = Vec::new();
        changes.push(put_missing(CONFIG_ENVELOPE_KEY.as_slice(), whole(&self.envelope)));
        changes.push(put_missing(CONFIG_HEAD_KEY.as_slice(), encode_head(self.head)));
        changes.push(put_missing(CONFIG_SIGNER_CERTIFICATE_KEY.as_slice(), whole(&self.signer)));
        changes.push(
            put_missing(KEY_MEMBER_CERTIFICATE.as_slice(), whole(&self.member_certificate)),
        );
        changes.push(put_missing(KEY_ENDPOINT_BINDING.as_slice(), whole(&self.endpoint_binding)));
        changes.push(
            StoreChange::Delete {
                key: copied(KEY_PREPARED_JOIN.as_slice()),
                expected: Expected::Exact(prepared_version),
            },
        );
        assert(config_state::change_views(changes@) =~= join_changes(*self, prepared_version));
        changes
    }
}

/// Whether a store with these records lets a change through.
pub open spec fn change_fits(store: Map<Seq<u8>, (u64, Seq<u8>)>, change: Changed) -> bool {
    match change {
        Changed::Put(write) => config_state::found_as(store, write.key, write.expected),
        Changed::Delete { key, expected } => config_state::found_as(store, key, expected),
    }
}

/// Whether a store with these records lets all changes through.
pub open spec fn changes_fit(store: Map<Seq<u8>, (u64, Seq<u8>)>, changes: Seq<Changed>) -> bool {
    forall|i: int| 0 <= i < changes.len() ==> change_fits(store, #[trigger] changes[i])
}

/// The records after some changes, where the store gives what is written this version.
pub open spec fn after_changes(
    store: Map<Seq<u8>, (u64, Seq<u8>)>,
    changes: Seq<Changed>,
    version: u64,
) -> Map<Seq<u8>, (u64, Seq<u8>)>
    decreases changes.len(),
{
    if changes.len() == 0 {
        store
    } else {
        let before = after_changes(store, changes.drop_last(), version);
        match changes.last() {
            Changed::Put(write) => before.insert(write.key, (version, write.bytes)),
            Changed::Delete { key, .. } => before.remove(key),
        }
    }
}

/// Joining consumes the prepared request: it goes through only where the request is still the one
/// that was read and nothing has been joined, it puts everything in its place and takes the request
/// away at once, it leaves all else alone, and it does not go through again.
pub proof fn law_join_consumes_the_request(
    store: Map<Seq<u8>, (u64, Seq<u8>)>,
    commit: JoinCommit,
    prepared_version: u64,
    version: u64,
    other: JoinCommit,
    other_version: u64,
)
    requires
        changes_fit(store, join_changes(commit, prepared_version)),
    ensures
        store.contains_key(KEY_PREPARED_JOIN@),
        store[KEY_PREPARED_JOIN@].0 == prepared_version,
        !store.contains_key(CONFIG_ENVELOPE_KEY@),
        !store.contains_key(CONFIG_HEAD_KEY@),
        !store.contains_key(CONFIG_SIGNER_CERTIFICATE_KEY@),
        !store.contains_key(KEY_MEMBER_CERTIFICATE@),
        !store.contains_key(KEY_ENDPOINT_BINDING@),
        ({
            let after = after_changes(store, join_changes(commit, prepared_version), version);
            &&& after =~= store.remove(KEY_PREPARED_JOIN@).insert(
                CONFIG_ENVELOPE_KEY@,
                (version, commit.envelope@),
            ).insert(CONFIG_HEAD_KEY@, (version, config_state::head_bytes(commit.head))).insert(
                CONFIG_SIGNER_CERTIFICATE_KEY@,
                (version, commit.signer@),
            ).insert(KEY_MEMBER_CERTIFICATE@, (version, commit.member_certificate@)).insert(
                KEY_ENDPOINT_BINDING@,
                (version, commit.endpoint_binding@),
            )
            &&& !after.contains_key(KEY_PREPARED_JOIN@)
            &&& !changes_fit(after, join_changes(other, other_version))
        }),
{
    let all = join_changes(commit, prepared_version);
    assert(all.len() == 6);
    assert(change_fits(store, all[0]));
    assert(change_fits(store, all[1]));
    assert(change_fits(store, all[2]));
    assert(change_fits(store, all[3]));
    assert(change_fits(store, all[4]));
    assert(change_fits(store, all[5]));
    let after = after_changes(store, all, version);
    reveal_with_fuel(after_changes, 7);
    assert(KEY_PREPARED_JOIN@.len() == 16);
    assert(!after.contains_key(KEY_PREPARED_JOIN@));
    let again = join_changes(other, other_version);
    assert(!change_fits(after, again[5]));
}

/// Whether the encryption key that is kept is that of the request.
pub open spec fn encryption_verdict(request: JoinRequestPayload, encryption: Seq<u8>) -> Result<
    (),
    MembershipError,
> {
    if outside::hpke_public(encryption) != request.encryption_public_key@ {
        Err(MembershipError::SecretMismatch("member encryption"))
    } else {
        Ok(())
    }
}

/// Whether the endpoint's key that is kept is that of the request.
pub open spec fn endpoint_verdict(request: JoinRequestPayload, endpoint: Seq<u8>) -> Result<
    (),
    MembershipError,
> {
    if outside::endpoint_public(endpoint) != request.endpoint_id@ {
        Err(MembershipError::SecretMismatch("endpoint"))
    } else {
        Ok(())
    }
}

/// Whether the signing key that is kept is that of the request.
pub open spec fn signing_verdict(request: JoinRequestPayload, signing: Seq<u8>) -> Result<
    (),
    MembershipError,
> {
    if outside::ed25519_public(signing) != request.signing_public_key@ {
        Err(MembershipError::SecretMismatch("member signing"))
    } else {
        Ok(())
    }
}

/// Whether the keys that are kept are those of the request.
pub open spec fn keys_verdict(
    request: JoinRequestPayload,
    encryption: Seq<u8>,
    endpoint: Seq<u8>,
    signing: Seq<u8>,
) -> Result<(), MembershipError> {
    match encryption_verdict(request, encryption) {
        Err(e) => Err(e),
        Ok(()) => match endpoint_verdict(request, endpoint) {
            Err(e) => Err(e),
            Ok(()) => signing_verdict(request, signing),
        },
    }
}

/// Whether a member's certificate answers a request.
pub open spec fn answers(m: MemberCertificatePayload, r: JoinRequestPayload) -> bool {
    m.member_id == r.member_id && m.signing_public_key == r.signing_public_key
        && m.encryption_public_key == r.encryption_public_key
}

/// What becomes of a ticket: the signer of the configuration must be certified, the
/// configuration must open for the member at the place that the ticket names, and the member's
/// certificate must answer the request.
pub open spec fn ticket_verdict(
    root: Seq<u8>,
    request: JoinRequestPayload,
    encryption: Seq<u8>,
    ticket: Ticket,
    now_ms: u64,
) -> Result<ConfigHead, MembershipError> {
    match config_state::signer_verdict(root, ticket.admin_certificate, now_ms) {
        Err(e) => Err(MembershipError::Crypto(e)),
        Ok(signer) => match envelope::read_envelope(ticket.embedded_config) {
            Err(e) => Err(MembershipError::Config(e)),
            Ok(e) => match sealing::admin_open_verdict(
                e,
                root,
                signer,
                encryption,
                ChainExpectation::Checkpoint(ticket.config_head),
                now_ms,
            ) {
                Err(e) => Err(MembershipError::Config(e)),
                Ok(opened) => match member::read_signed_member(ticket.member_certificate) {
                    None => Err(MembershipError::Crypto(CertificateError::MalformedWire)),
                    Some(m) => if answers(m.payload, request) {
                        Ok(opened.head)
                    } else {
                        Err(MembershipError::TicketMemberMismatch)
                    },
                },
            },
        },
    }
}

/// How a network is joined.
pub struct NetworkMembership;

impl NetworkMembership {
    /// Prepares a request to join with the keys of a member and its endpoint. The nonce rests on
    /// chance.
    pub fn prepare_join(
        network_id: NetworkId,
        signing: &SigningKeypair,
        encryption: &MemberEncryptionKeypair,
        endpoint_secret: &[u8; 32],
        roles: MemberRoles,
        expires_at_ms: u64,
    ) -> (prepared: Result<PreparedJoinRequest, MembershipError>)
        ensures
            prepared == Err::<PreparedJoinRequest, MembershipError>(
                MembershipError::RandomnessUnavailable,
            ) || exists|nonce: [u8; 32]| #[trigger]
                prepared_with(
                    network_id,
                    signing@,
                    encryption@,
                    endpoint_secret@,
                    nonce,
                    roles,
                    expires_at_ms,
                    prepared,
                ),
    {
        let nonce: [u8; 32] = match random_array::<32>() {
            Some(nonce) => nonce,
            None => return Err(MembershipError::RandomnessUnavailable),
        };
        Self::prepare_join_with(
            network_id,
            signing,
            encryption,
            endpoint_secret,
            nonce,
            roles,
            expires_at_ms,
        )
    }

    /// Prepares a request to join with the keys of a member and its endpoint, and with this nonce.
    pub fn prepare_join_with(
        network_id: NetworkId,
        signing: &SigningKeypair,
        encryption: &MemberEncryptionKeypair,
        endpoint_secret: &[u8; 32],
        nonce: [u8; 32],
        roles: MemberRoles,
        expires_at_ms: u64,
    ) -> (prepared: Result<PreparedJoinRequest, MembershipError>)
        ensures
            prepared_with(
                network_id,
                signing@,
                encryption@,
                endpoint_secret@,
                nonce,
                roles,
                expires_at_ms,
                prepared,
            ),
    {
        let encryption_key: [u8; 32] = encryption.public_bytes();
        let endpoint_key: [u8; 32] = endpoint_public_key(endpoint_secret);
        let signing_key: [u8; 32] = signing.public_bytes();
        proof {
            wire::lemma_array_of(encryption_key);
            wire::lemma_array_of(endpoint_key);
            wire::lemma_array_of(signing_key);
        }
        match PreparedJoinRequest::create(
            network_id,
            signing,
            encryption_key,
            endpoint_key,
            nonce,
            roles,
            expires_at_ms,
        ) {
            Ok(prepared) => {
                proof {
                    wire::lemma_array_of(prepared@.request.signature);
                    wire::lemma_array_of(prepared@.endpoint_binding.signature);
                }
                Ok(prepared)
            },
            Err(error) => Err(MembershipError::Crypto(error)),
        }
    }

    /// The request that a ticket has to answer: the prepared one, which must still hold.
    pub fn prepared_request(prepared: &Option<Vec<u8>>, network_id: NetworkId, now_ms: u64) -> (request: Result<
        VerifiedJoinRequest,
        MembershipError,
    >)
        ensures
            match request_verdict(config_state::record_view(*prepared), network_id, now_ms) {
                Ok(payload) => request matches Ok(request) && request@ == payload,
                Err(reason) => request matches Err(error) && error == reason,
            },
    {
        let bytes: &Vec<u8> = match prepared {
            Some(bytes) => bytes,
            None => return Err(MembershipError::NotPrepared),
        };
        let prepared: PreparedJoinRequest = match PreparedJoinRequest::from_bytes(bytes.as_slice()) {
            Ok(prepared) => prepared,
            Err(error) => return Err(MembershipError::Crypto(error)),
        };
        match prepared.verify(network_id, now_ms) {
            Ok(request) => Ok(request),
            Err(error) => Err(MembershipError::Crypto(error)),
        }
    }

    /// Checks that the encryption key that is kept is that of the request.
    pub fn check_encryption(request: &VerifiedJoinRequest, encryption: &MemberEncryptionKeypair) -> (checked:
        Result<(), MembershipError>)
        ensures
            checked == encryption_verdict(request@, encryption@),
    {
        let payload: &JoinRequestPayload = request.payload();
        let key: [u8; 32] = encryption.public_bytes();
        proof {
            if key@ == payload.encryption_public_key@ {
                wire::lemma_array_ext(key, payload.encryption_public_key);
            }
        }
        if !arrays_equal(&key, &payload.encryption_public_key) {
            return Err(MembershipError::SecretMismatch("member encryption"));
        }
        Ok(())
    }

    /// Checks that the endpoint's key that is kept is that of the request.
    pub fn check_endpoint(request: &VerifiedJoinRequest, endpoint_secret: &[u8; 32]) -> (checked: Result<
        (),
        MembershipError,
    >)
        ensures
            checked == endpoint_verdict(request@, endpoint_secret@),
    {
        let payload: &JoinRequestPayload = request.payload();
        let key: [u8; 32] = endpoint_public_key(endpoint_secret);
        proof {
            if key@ == payload.endpoint_id@ {
                wire::lemma_array_ext(key, payload.endpoint_id);
            }
        }
        if !arrays_equal(&key, &payload.endpoint_id) {
            return Err(MembershipError::SecretMismatch("endpoint"));
        }
        Ok(())
    }

    /// Checks that the signing key that is kept is that of the request.
    pub fn check_signing(request: &VerifiedJoinRequest, signing: &SigningKeypair) -> (checked: Result<
        (),
        MembershipError,
    >)
        ensures
            checked == signing_verdict(request@, signing@),
    {
        let payload: &JoinRequestPayload = request.payload();
        let key: [u8; 32] = signing.public_bytes();
        proof {
            if key@ == payload.signing_public_key@ {
                wire::lemma_array_ext(key, payload.signing_public_key);
            }
        }
        if !arrays_equal(&key, &payload.signing_public_key) {
            return Err(MembershipError::SecretMismatch("member signing"));
        }
        Ok(())
    }

    /// Checks what a ticket brings and gives what is to be written. That the ticket itself answers
    /// the nonce and the endpoint of the request is checked where tickets are issued and read.
    pub fn join(
        root: &NetworkRootPublic,
        request: &VerifiedJoinRequest,
        encryption: &MemberEncryptionKeypair,
        ticket: &TicketContents,
        now_ms: u64,
    ) -> (commit: Result<JoinCommit, MembershipError>)
        ensures
            match ticket_verdict(root@, request@, encryption@, ticket@, now_ms) {
                Ok(head) => commit matches Ok(commit) && commit.head == head && commit.envelope@
                    == ticket@.embedded_config && commit.signer@ == ticket@.admin_certificate
                    && commit.member_certificate@ == ticket@.member_certificate
                    && commit.endpoint_binding@ == ticket@.endpoint_binding,
                Err(reason) => commit matches Err(error) && error == reason,
            },
    {
        let admin: VerifiedAdmin = match verified_signer(
            root,
            ticket.admin_certificate.as_slice(),
            now_ms,
        ) {
            Ok(admin) => admin,
            Err(error) => return Err(MembershipError::Crypto(error)),
        };
        let envelope: EncryptedConfigEnvelope = match EncryptedConfigEnvelope::from_bytes(
            ticket.embedded_config.as_slice(),
        ) {
            Ok(envelope) => envelope,
            Err(error) => return Err(MembershipError::Config(error)),
        };
        let opened: OpenedNetworkConfig = match envelope.open_config_with_verified_admin(
            root,
            &admin,
            encryption,
            ChainExpectation::Checkpoint(ticket.config_head),
            now_ms,
        ) {
            Ok(opened) => opened,
            Err(error) => return Err(MembershipError::Config(error)),
        };
        let member: MemberCertificate = match MemberCertificate::from_bytes(
            ticket.member_certificate.as_slice(),
        ) {
            Ok(member) => member,
            Err(error) => return Err(MembershipError::Crypto(error)),
        };
        let payload: &JoinRequestPayload = request.payload();
        if member.payload().member_id != payload.member_id || !arrays_equal(
            &member.payload().signing_public_key,
            &payload.signing_public_key,
        ) || !arrays_equal(
            &member.payload().encryption_public_key,
            &payload.encryption_public_key,
        ) {
            return Err(MembershipError::TicketMemberMismatch);
        }
        Ok(
            JoinCommit {
                envelope: whole(&ticket.embedded_config),
                head: opened.head,
                signer: whole(&ticket.admin_certificate),
                member_certificate: whole(&ticket.member_certificate),
                endpoint_binding: whole(&ticket.endpoint_binding),
            },
        )
    }
}

fn whole(bytes: &Vec<u8>) -> (copy: Vec<u8>)
    ensures
        copy@ == bytes@,
{
    let copy: Vec<u8> = copy_range(bytes.as_slice(), 0, bytes.len());
    assert(copy@ =~= bytes@);
    copy
}

/// Joining stores exactly what opens afterwards: what is written for an accepted ticket opens as
/// a stored configuration at the same time, with the same head.
pub proof fn law_joined_network_opens(
    root: Seq<u8>,
    request: JoinRequestPayload,
    encryption: Seq<u8>,
    ticket: Ticket,
    now_ms: u64,
)
    requires
        ticket_verdict(root, request, encryption, ticket, now_ms) is Ok,
    ensures
        ({
            let head = ticket_verdict(root, request, encryption, ticket, now_ms)->Ok_0;
            &&& head == ticket.config_head
            &&& config_state::open_verdict(
                root,
                encryption,
                Some(ticket.embedded_config),
                Some(config_state::head_bytes(head)),
                Some(ticket.admin_certificate),
                now_ms,
            ) matches Ok(opened)
            &&& opened.head == head
        }),
{
    config_state::law_head_round_trip(ticket.config_head);
}

} // verus!
