//! The network of the benchmark: a server and a client with fixed keys.
use crate::config::snapshot;
use crate::config::snapshot::{
    Config, DnsRecord, EpochSecrets, NetworkConfigV1, NetworkPolicy, PresenceService, Relay, Secrets,
    SnapshotError,
};
use crate::config::validate;
use crate::config::validate::ValidatedNetworkConfig;
use crate::crypto::app;
use crate::crypto::app::{AppBinding, AppRegistration, AppRegistrationPayload, AppRole, Binding};
use crate::crypto::endpoint;
use crate::crypto::endpoint::{EndpointBinding, EndpointBindingPayload};
use crate::crypto::keys;
use crate::crypto::keys::{AppRootKey, CertificateError, NetworkRootKey, NetworkRootPublic, SigningKeypair};
use crate::crypto::member;
use crate::crypto::member::{MemberCertificate, MemberCertificatePayload, MemberRoles};
use crate::identifiers::{AppAddr, DeviceId, EndpointId, NetworkId, ScopedVirtualAddr, ServiceId};
use crate::outside;
use crate::outside::endpoint_public_key;
use crate::wire;
use vstd::prelude::*;

verus! {

/// The byte of which the secret key of the server's endpoint is made.
pub const SERVER_ENDPOINT_SECRET: u8 = 0x11;

/// The byte of which the secret key of the client's endpoint is made.
pub const CLIENT_ENDPOINT_SECRET: u8 = 0x22;

pub const SERVER_MEMBER_SECRET: u8 = 0x31;

pub const CLIENT_MEMBER_SECRET: u8 = 0x32;

pub const ROOT_SECRET: u8 = 0x41;

pub const SERVER_APP_SECRET: u8 = 0x51;

pub const CLIENT_APP_SECRET: u8 = 0x52;

pub const CLIENT_DEVICE: u8 = 0x61;

pub const SERVER_ENCRYPTION_KEY: u8 = 0x71;

pub const CLIENT_ENCRYPTION_KEY: u8 = 0x72;

pub const PREVIOUS_HASH: u8 = 0x81;

pub const EPOCH_SECRET: u8 = 0x91;

/// When everything in the network expires.
pub const FIXTURE_EXPIRES: u64 = 0xffff_ffff_ffff_fffe;

/// A key that consists of one byte.
pub open spec fn filled(byte: u8) -> Seq<u8> {
    Seq::new(32, |i: int| byte)
}

/// A key that consists of one byte.
pub open spec fn filled_array(byte: u8) -> [u8; 32] {
    wire::array_of(filled(byte))
}

/// A key that consists of one byte.
pub fn fixed_key(byte: u8) -> (key: [u8; 32])
    ensures
        key@ == filled(byte),
        key == filled_array(byte),
{
    let key: [u8; 32] = [byte; 32];
    proof {
        assert(key@ =~= filled(byte));
        wire::lemma_array_of(key);
    }
    key
}

/// The public key of the network's root.
pub open spec fn root_public() -> Seq<u8> {
    outside::ed25519_public(filled(ROOT_SECRET))
}

/// The network.
pub open spec fn fixture_network() -> NetworkId {
    keys::network_id_of(root_public())
}

/// The address of the application with this root key.
pub open spec fn fixture_app(secret: u8) -> AppAddr {
    keys::app_addr_of(outside::ed25519_public(filled(secret)))
}

/// The certificate of a member.
pub open spec fn fixture_member(secret: u8, encryption: u8, roles: MemberRoles, serial: u64) -> MemberCertificatePayload {
    member::member_issued(
        fixture_network(),
        keys::root_key_id(root_public()),
        wire::array_of(outside::ed25519_public(filled(secret))),
        filled_array(encryption),
        roles,
        serial,
        0,
        FIXTURE_EXPIRES,
    )
}

/// A member's certificate, signed by the root.
pub open spec fn fixture_member_bytes(secret: u8, encryption: u8, roles: MemberRoles, serial: u64) -> Seq<u8> {
    let p = member::member_bytes(fixture_member(secret, encryption, roles, serial));
    p + outside::ed25519_signature(filled(ROOT_SECRET), p)
}

/// An endpoint's binding, signed by its member.
pub open spec fn fixture_endpoint_bytes(
    secret: u8,
    member: MemberCertificatePayload,
    endpoint_secret: u8,
) -> Seq<u8> {
    let p = endpoint::endpoint_bytes(
        EndpointBindingPayload {
            network_id: member.network_id,
            member_id: member.member_id,
            endpoint_id: wire::array_of(outside::endpoint_public(filled(endpoint_secret))),
            sequence: 0,
            expires_at_ms: FIXTURE_EXPIRES,
        },
    );
    p + outside::ed25519_signature(filled(secret), p)
}

/// An application's registration, signed by the root.
pub open spec fn fixture_app_bytes(secret: u8) -> Seq<u8> {
    let p = app::app_registration_bytes(
        AppRegistrationPayload {
            network_id: fixture_network(),
            app_addr: fixture_app(secret),
            app_root_public_key: wire::array_of(outside::ed25519_public(filled(secret))),
            policy: 0,
            issuer_key_id: keys::root_key_id(root_public()),
        },
    );
    p + outside::ed25519_signature(filled(ROOT_SECRET), p)
}

/// A member's binding to an application, signed by the application's root.
pub open spec fn fixture_binding_bytes(
    secret: u8,
    member: MemberCertificatePayload,
    role: AppRole,
    device_id: Option<DeviceId>,
) -> Seq<u8> {
    let p = app::binding_bytes(
        Binding {
            network_id: fixture_network(),
            app_addr: fixture_app(secret),
            subject: member.member_id,
            role,
            device_id,
            expires_at_ms: FIXTURE_EXPIRES,
            services: Seq::empty(),
        },
    );
    p + outside::ed25519_signature(filled(secret), p)
}

/// The server's certificate.
pub open spec fn fixture_server() -> MemberCertificatePayload {
    fixture_member(SERVER_MEMBER_SECRET, SERVER_ENCRYPTION_KEY, MemberRoles(1u32 | 2u32), 1)
}

/// The client's certificate.
pub open spec fn fixture_client() -> MemberCertificatePayload {
    fixture_member(CLIENT_MEMBER_SECRET, CLIENT_ENCRYPTION_KEY, MemberRoles(1), 2)
}

/// The configuration of the network: two members with one endpoint each, and an application for
/// either to serve or to use.
pub open spec fn fixture_config() -> Config {
    Config {
        network_id: fixture_network(),
        epoch: 1,
        revision: 1,
        previous_hash: filled_array(PREVIOUS_HASH),
        issued_at_ms: 0,
        expires_at_ms: FIXTURE_EXPIRES,
        admin_keys: Seq::empty(),
        members: seq![
            fixture_member_bytes(
                SERVER_MEMBER_SECRET,
                SERVER_ENCRYPTION_KEY,
                MemberRoles(1u32 | 2u32),
                1,
            ),
            fixture_member_bytes(CLIENT_MEMBER_SECRET, CLIENT_ENCRYPTION_KEY, MemberRoles(1), 2),
        ],
        endpoint_bindings: seq![
            fixture_endpoint_bytes(SERVER_MEMBER_SECRET, fixture_server(), SERVER_ENDPOINT_SECRET),
            fixture_endpoint_bytes(CLIENT_MEMBER_SECRET, fixture_client(), CLIENT_ENDPOINT_SECRET),
        ],
        revoked_serials: Seq::empty(),
        apps: seq![fixture_app_bytes(SERVER_APP_SECRET), fixture_app_bytes(CLIENT_APP_SECRET)],
        app_bindings: seq![
            fixture_binding_bytes(SERVER_APP_SECRET, fixture_server(), AppRole::Server, None),
            fixture_binding_bytes(
                CLIENT_APP_SECRET,
                fixture_client(),
                AppRole::Client,
                Some(DeviceId(filled_array(CLIENT_DEVICE))),
            ),
        ],
        virtual_dns: Seq::empty(),
        relays: Seq::empty(),
        presence_services: Seq::empty(),
        epoch_secrets: Secrets {
            presence_index_seed: filled_array(EPOCH_SECRET),
            presence_encryption_seed: filled_array(EPOCH_SECRET),
            lan_discovery_seed: filled_array(EPOCH_SECRET),
            relay_access_seed: filled_array(EPOCH_SECRET),
        },
        policies: NetworkPolicy { flags: 0, max_members: 256, max_services_per_binding: 64 },
    }
}

/// The network of the benchmark.
pub struct Fixture {
    pub config: ValidatedNetworkConfig,
    pub network_id: NetworkId,
    pub server_app: AppAddr,
    pub client_app: AppAddr,
    pub client_addr: ScopedVirtualAddr,
    pub server_endpoint: EndpointId,
    pub client_endpoint: EndpointId,
}

/// Why there is no network for the benchmark.
#[derive(Clone, Copy, Debug, PartialEq, Eq)]
pub enum FixtureError {
    Crypto(CertificateError),
    Snapshot(SnapshotError),
}

/// The certificate of a member, as it is issued.
fn issue_member(root: &NetworkRootKey, secret: u8, encryption: u8, roles: MemberRoles, serial: u64) -> (member: Result<
    MemberCertificate,
    FixtureError,
>)
    requires
        root@ == filled(ROOT_SECRET),
    ensures
        member matches Ok(member) && member@.payload == fixture_member(
            secret,
            encryption,
            roles,
            serial,
        ) && member@.payload.signing_public_key@ == outside::ed25519_public(filled(secret))
            && member::signed_member_bytes(member@) == fixture_member_bytes(
            secret,
            encryption,
            roles,
            serial,
        ),
{
    let signing: SigningKeypair = SigningKeypair::from_bytes(&fixed_key(secret));
    let public: [u8; 32] = signing.public_bytes();
    proof {
        wire::lemma_array_of(public);
    }
    match MemberCertificate::issue(
        root,
        public,
        fixed_key(encryption),
        roles,
        serial,
        0,
        FIXTURE_EXPIRES,
    ) {
        Ok(member) => Ok(member),
        Err(error) => Err(FixtureError::Crypto(error)),
    }
}

/// The bytes of an endpoint's binding, as it is issued.
fn issue_endpoint(secret: u8, member: &MemberCertificatePayload, endpoint_secret: u8) -> (bytes: Result<
    Vec<u8>,
    FixtureError,
>)
    requires
        member.signing_public_key@ == outside::ed25519_public(filled(secret)),
    ensures
        bytes matches Ok(bytes) && bytes@ == fixture_endpoint_bytes(
            secret,
            *member,
            endpoint_secret,
        ),
{
    let signing: SigningKeypair = SigningKeypair::from_bytes(&fixed_key(secret));
    let endpoint_id: [u8; 32] = endpoint_public_key(&fixed_key(endpoint_secret));
    proof {
        wire::lemma_array_of(endpoint_id);
    }
    match EndpointBinding::issue(&signing, member, endpoint_id, 0, FIXTURE_EXPIRES) {
        Ok(binding) => Ok(binding.to_bytes()),
        Err(error) => Err(FixtureError::Crypto(error)),
    }
}

/// The bytes of a member's binding to an application, as it is issued.
fn issue_binding(
    secret: u8,
    network_id: NetworkId,
    member: &MemberCertificatePayload,
    role: AppRole,
    device_id: Option<DeviceId>,
) -> (bytes: Result<Vec<u8>, FixtureError>)
    requires
        network_id == fixture_network(),
        app::role_fits(role, device_id),
    ensures
        bytes matches Ok(bytes) && bytes@ == fixture_binding_bytes(
            secret,
            *member,
            role,
            device_id,
        ),
{
    let app_root: AppRootKey = AppRootKey::from_bytes(&fixed_key(secret));
    let services: Vec<ServiceId> = Vec::new();
    assert(services@ =~= Seq::<ServiceId>::empty());
    match AppBinding::issue(
        &app_root,
        network_id,
        member.member_id,
        role,
        device_id,
        FIXTURE_EXPIRES,
        services,
    ) {
        Ok(binding) => Ok(binding.to_bytes()),
        Err(error) => Err(FixtureError::Crypto(error)),
    }
}

/// Two byte strings as a list.
fn pair(first: Vec<u8>, second: Vec<u8>) -> (list: Vec<Vec<u8>>)
    ensures
        snapshot::blobs(list@) == seq![first@, second@],
{
    let mut list: Vec<Vec<u8>> = Vec::new();
    list.push(first);
    list.push(second);
    assert(snapshot::blobs(list@) =~= seq![first@, second@]);
    list
}

/// Sets up the network of the benchmark.
pub fn fixture(now_ms: u64) -> (made: Result<Fixture, FixtureError>)
    ensures
        match validate::config_verdict(fixture_config(), root_public(), fixture_network(), now_ms) {
            Err(reason) => made matches Err(error) && error == FixtureError::Snapshot(reason),
            Ok(()) => {
                &&& made matches Ok(made)
                &&& made.config@ == fixture_config()
                &&& made.network_id == fixture_network()
                &&& made.server_app == fixture_app(SERVER_APP_SECRET)
                &&& made.client_app == fixture_app(CLIENT_APP_SECRET)
                &&& made.client_addr == (ScopedVirtualAddr::Client {
                    app: fixture_app(CLIENT_APP_SECRET),
                    device: DeviceId(filled_array(CLIENT_DEVICE)),
                })
                &&& made.server_endpoint@ == outside::endpoint_public(
                    filled(SERVER_ENDPOINT_SECRET),
                )
                &&& made.client_endpoint@ == outside::endpoint_public(
                    filled(CLIENT_ENDPOINT_SECRET),
                )
            },
        },
{
    let root: NetworkRootKey = NetworkRootKey::from_bytes(&fixed_key(ROOT_SECRET));
    let public: NetworkRootPublic = root.public();
    let network_id: NetworkId = public.network_id();
    let server_member: MemberCertificate = issue_member(
        &root,
        SERVER_MEMBER_SECRET,
        SERVER_ENCRYPTION_KEY,
        MemberRoles::member().union(MemberRoles::service()),
        1,
    )?;
    let client_member: MemberCertificate = issue_member(
        &root,
        CLIENT_MEMBER_SECRET,
        CLIENT_ENCRYPTION_KEY,
        MemberRoles::member(),
        2,
    )?;
    let server_endpoint_binding: Vec<u8> = issue_endpoint(
        SERVER_MEMBER_SECRET,
        server_member.payload(),
        SERVER_ENDPOINT_SECRET,
    )?;
    let client_endpoint_binding: Vec<u8> = issue_endpoint(
        CLIENT_MEMBER_SECRET,
        client_member.payload(),
        CLIENT_ENDPOINT_SECRET,
    )?;
    let server_app_key: AppRootKey = AppRootKey::from_bytes(&fixed_key(SERVER_APP_SECRET));
    let client_app_key: AppRootKey = AppRootKey::from_bytes(&fixed_key(CLIENT_APP_SECRET));
    let server_app: AppAddr = server_app_key.app_addr();
    let client_app: AppAddr = client_app_key.app_addr();
    let server_registration: AppRegistration = AppRegistration::issue(&root, &server_app_key, 0);
    let client_registration: AppRegistration = AppRegistration::issue(&root, &client_app_key, 0);
    let device: DeviceId = DeviceId(fixed_key(CLIENT_DEVICE));
    let server_binding: Vec<u8> = issue_binding(
        SERVER_APP_SECRET,
        network_id,
        server_member.payload(),
        AppRole::Server,
        None,
    )?;
    let client_binding: Vec<u8> = issue_binding(
        CLIENT_APP_SECRET,
        network_id,
        client_member.payload(),
        AppRole::Client,
        Some(device),
    )?;
    let epoch_secret: [u8; 32] = fixed_key(EPOCH_SECRET);
    let config = NetworkConfigV1 {
        network_id,
        epoch: 1,
        revision: 1,
        previous_hash: fixed_key(PREVIOUS_HASH),
        issued_at_ms: 0,
        expires_at_ms: FIXTURE_EXPIRES,
        admin_keys: Vec::new(),
        members: pair(server_member.to_bytes(), client_member.to_bytes()),
        endpoint_bindings: pair(server_endpoint_binding, client_endpoint_binding),
        revoked_serials: Vec::new(),
        apps: pair(server_registration.to_bytes(), client_registration.to_bytes()),
        app_bindings: pair(server_binding, client_binding),
        virtual_dns: Vec::new(),
        relays: Vec::new(),
        presence_services: Vec::new(),
        epoch_secrets: EpochSecrets::from_bytes(
            [epoch_secret, epoch_secret, epoch_secret, epoch_secret],
        ),
        policies: NetworkPolicy::default(),
    };
    proof {
        assert(config@.admin_keys =~= Seq::<Seq<u8>>::empty());
        assert(config@.revoked_serials =~= Seq::<u64>::empty());
        assert(config@.virtual_dns =~= Seq::<DnsRecord>::empty());
        assert(config@.relays =~= Seq::<Relay>::empty());
        assert(config@.presence_services =~= Seq::<PresenceService>::empty());
        assert(config@.members == fixture_config().members);
        assert(config@.endpoint_bindings == fixture_config().endpoint_bindings);
        assert(config@.apps == fixture_config().apps);
        assert(config@.app_bindings == fixture_config().app_bindings);
        assert(config@ == fixture_config());
    }
    let server_endpoint: EndpointId = EndpointId(
        endpoint_public_key(&fixed_key(SERVER_ENDPOINT_SECRET)),
    );
    let client_endpoint: EndpointId = EndpointId(
        endpoint_public_key(&fixed_key(CLIENT_ENDPOINT_SECRET)),
    );
    match config.validate(&public, network_id, now_ms) {
        Ok(config) => Ok(
            Fixture {
                config,
                network_id,
                server_app,
                client_app,
                client_addr: ScopedVirtualAddr::Client { app: client_app, device },
                server_endpoint,
                client_endpoint,
            },
        ),
        Err(error) => Err(FixtureError::Snapshot(error)),
    }
}

} // verus!
