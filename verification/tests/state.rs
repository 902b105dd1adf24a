use weaver::config::chain::{ChainExpectation, ConfigHead, ConfigUpdateBatch};
use weaver::config::envelope::{ConfigError, EncryptedConfigEnvelope};
use weaver::config::sealing::MemberEncryptionKeypair;
use weaver::config::snapshot::{AdminKey, EpochSecrets, NetworkConfigV1, NetworkPolicy};
use weaver::config::validate::ValidatedNetworkConfig;
use weaver::crypto::admin::{AdminCertificate, ADMIN_PERMISSION_ALL};
use weaver::crypto::app::AppRole;
use weaver::crypto::endpoint::EndpointBinding;
use weaver::crypto::keys::{AppRootKey, CertificateError, NetworkRootKey, OnlineAdminKey, SigningKeypair};
use weaver::crypto::member::{MemberCertificate, MemberRoles};
use weaver::discovery::address::{IpAddress, SocketAddress};
use weaver::discovery::presence::{DiscoveryCandidate, DiscoveryError};
use weaver::fixture::{fixed_key, fixture, SERVER_MEMBER_SECRET};
use weaver::identifiers::{AppAddr, EndpointId, NetworkId, ServerAddr};
use weaver::net::bindings::{LocalBinding, LocalBindings};
use weaver::net::config_state::{
    decode_head, encode_head, history_key, seed_step, ConfigStateError, Expected,
    PersistedConfigState, SeedStep, StoreChange, StoredRecord, StoredVersions,
};
use weaver::net::identity::{
    decode_record, derive_secret_id, encode_record, identity_key, IdentityError,
    PersistentClientIdentity,
};
use weaver::net::join_setup::{JoinEvent, JoinPreparation, JoinStep};
use weaver::net::membership::{
    member_secret_id, secret_key_bytes, stores_acceptable, MembershipError, NetworkMembership,
    StoreCapabilities, TicketContents, KEY_PREPARED_JOIN,
};
use weaver::net::peers::ConfigPeerDescriptor;
use weaver::net::sync::{
    prepare_publication, published_candidates, signalled, AntiEntropy, ConfigSyncEvent,
    ConfigSyncOptions, ConfigSyncRuntimeError, FetchOutcome, PresenceRefresh, PresenceSyncEvent,
    PresenceSyncOptions, QueryOutcome, Signal, SyncAction,
};
use weaver::provisioning::{
    app_request_key, app_root_from_secret, app_secret_id, bind_app, binding_expiry, decode_hex_32,
    encode_hex, join_expiry, joined_member, member_signing_key, relay_of_endpoint, requested_roles,
    ProvisionError, RequestedRole,
};

const NETWORK: NetworkId = NetworkId([0x11; 32]);
const APP: AppAddr = AppAddr([0x22; 32]);

fn drawn_secret() -> [u8; 32] {
    iroh::SecretKey::generate().to_bytes()
}

#[test]
fn identity_is_restored_from_record_and_secret() {
    let first = PersistentClientIdentity::new(drawn_secret(), NETWORK, APP);
    let kept = first.record();
    let reopened =
        PersistentClientIdentity::restore(&kept, first.secret_key(), NETWORK, APP).unwrap();
    assert_eq!(first.endpoint_id(), reopened.endpoint_id());
    assert_eq!(first.device_id(), reopened.device_id());
    assert_eq!(first.secret_key(), reopened.secret_key());
    assert_eq!(first.secret_id(), reopened.secret_id());
    assert!(!first.superseded_by(&reopened));
    assert_eq!(first.confirm_secret(first.secret_key()), Ok(()));
}

#[test]
fn identity_names_depend_on_network_and_app() {
    let first = PersistentClientIdentity::new(drawn_secret(), NETWORK, APP);
    let other_network =
        PersistentClientIdentity::new(drawn_secret(), NetworkId::from_bytes([0x33; 32]), APP);
    let other_app =
        PersistentClientIdentity::new(drawn_secret(), NETWORK, AppAddr::from_bytes([0x44; 32]));
    assert_ne!(first.endpoint_id(), other_network.endpoint_id());
    assert_ne!(first.device_id(), other_network.device_id());
    assert_ne!(first.endpoint_id(), other_app.endpoint_id());
    assert_ne!(first.device_id(), other_app.device_id());
    assert!(first.superseded_by(&other_app));
    assert!(matches!(
        PersistentClientIdentity::restore(
            &first.record(),
            first.secret_key(),
            NetworkId::from_bytes([0x33; 32]),
            APP
        ),
        Err(IdentityError::DeviceIdMismatch)
    ));
    assert_ne!(identity_key(APP), identity_key(AppAddr::from_bytes([0x44; 32])));
    assert_ne!(
        derive_secret_id(NETWORK, APP, first.endpoint_id()),
        derive_secret_id(NETWORK, AppAddr::from_bytes([0x44; 32]), first.endpoint_id())
    );
}

#[test]
fn corrupt_record_is_not_restored() {
    assert!(matches!(
        PersistentClientIdentity::restore(b"corrupt", &[], NETWORK, APP),
        Err(IdentityError::CorruptRecord)
    ));
}

#[test]
fn identity_secrets_must_fit_their_record() {
    let identity = PersistentClientIdentity::new([7; 32], NETWORK, APP);
    assert!(matches!(
        PersistentClientIdentity::restore(&identity.record(), &[8; 32], NETWORK, APP),
        Err(IdentityError::SecretPublicKeyMismatch)
    ));
    assert!(matches!(
        PersistentClientIdentity::restore(&identity.record(), &[7; 31], NETWORK, APP),
        Err(IdentityError::CorruptRecord)
    ));
    assert!(identity.confirm_secret(&[8; 32]).is_err());
    let record = decode_record(&identity.record()).unwrap();
    assert_eq!(record.endpoint_id, identity.endpoint_id());
    assert_eq!(encode_record(&record), identity.record());
    assert_eq!(
        identity.endpoint_id().as_bytes(),
        iroh::SecretKey::from_bytes(&[7; 32]).public().as_bytes()
    );
}

struct Network {
    root: NetworkRootKey,
    admin: OnlineAdminKey,
    admin_certificate: AdminCertificate,
    encryption: MemberEncryptionKeypair,
    signing: SigningKeypair,
    member: MemberCertificate,
    config: NetworkConfigV1,
}

const ENDPOINT_SECRET: [u8; 32] = [0x66; 32];

fn network() -> Network {
    let root = NetworkRootKey::from_bytes(&[0x61; 32]);
    let admin = OnlineAdminKey::from_bytes(&[0x62; 32]);
    let encryption = MemberEncryptionKeypair::from_secret_bytes([0x63; 32]).unwrap();
    let signing = SigningKeypair::from_bytes(&[0x64; 32]);
    let admin_certificate = AdminCertificate::issue(
        &root,
        admin.public_bytes(),
        ADMIN_PERMISSION_ALL,
        1,
        100,
        10_000,
    )
    .unwrap();
    let member = MemberCertificate::issue(
        &root,
        signing.public_bytes(),
        encryption.public_bytes(),
        MemberRoles::member(),
        2,
        100,
        10_000,
    )
    .unwrap();
    let config = NetworkConfigV1 {
        network_id: root.public().network_id(),
        epoch: 0,
        revision: 0,
        previous_hash: [0; 32],
        issued_at_ms: 100,
        expires_at_ms: 9_000,
        admin_keys: vec![AdminKey {
            certificate: admin_certificate.to_bytes(),
        }],
        members: vec![member.to_bytes()],
        endpoint_bindings: Vec::new(),
        revoked_serials: Vec::new(),
        apps: Vec::new(),
        app_bindings: Vec::new(),
        virtual_dns: Vec::new(),
        relays: Vec::new(),
        presence_services: Vec::new(),
        epoch_secrets: EpochSecrets::from_bytes([[0x65; 32]; 4]),
        policies: NetworkPolicy::default(),
    };
    Network {
        root,
        admin,
        admin_certificate,
        encryption,
        signing,
        member,
        config,
    }
}

fn key_copy(network: &Network) -> MemberEncryptionKeypair {
    MemberEncryptionKeypair::from_secret_bytes(network.encryption.secret_bytes()).unwrap()
}

fn opened(network: &Network) -> (PersistedConfigState, EncryptedConfigEnvelope) {
    let genesis = EncryptedConfigEnvelope::seal_config(
        &network.root,
        &network.config,
        &[network.encryption.public_bytes()],
    )
    .unwrap();
    let start = genesis
        .open_config(
            &network.root.public(),
            network.root.public().network_id(),
            &network.encryption,
            ChainExpectation::Genesis,
            500,
        )
        .unwrap();
    let first = sealed_after(network, &start.config, start.head);
    let head = ConfigHead {
        epoch: 0,
        revision: 1,
        hash: first.envelope_hash(),
    };
    let state = PersistedConfigState::open(
        network.root.public(),
        key_copy(network),
        stored(first.to_bytes(), 11),
        stored(encode_head(head), 12),
        stored(network.admin_certificate.to_bytes(), 13),
        500,
    )
    .unwrap();
    (state, first)
}

fn stored(bytes: Vec<u8>, version: u64) -> Option<StoredRecord> {
    Some(StoredRecord { bytes, version })
}

fn sealed_after(
    network: &Network,
    config: &ValidatedNetworkConfig,
    head: ConfigHead,
) -> EncryptedConfigEnvelope {
    let mut next = config.as_config().clone();
    next.revision += 1;
    next.previous_hash = head.hash;
    EncryptedConfigEnvelope::seal_next_config(
        &network.root.public(),
        &network.admin,
        config,
        head,
        &next,
        &[network.encryption.public_bytes()],
        500,
    )
    .unwrap()
}

fn next_envelope(network: &Network, state: &PersistedConfigState) -> EncryptedConfigEnvelope {
    sealed_after(network, state.config(), state.head())
}

#[test]
fn heads_and_history_keys_are_kept_exactly() {
    let head = ConfigHead {
        epoch: 1,
        revision: 2,
        hash: [3; 32],
    };
    let bytes = encode_head(head);
    assert_eq!(bytes.len(), 48);
    assert_eq!(decode_head(&bytes), Ok(head));
    for at in 0..bytes.len() {
        let mut other = bytes.clone();
        other[at] ^= 1;
        assert_eq!(encode_head(decode_head(&other).unwrap()), other);
    }
    assert_eq!(decode_head(&bytes[1..]), Err(ConfigStateError::MalformedHead));
    assert_ne!(history_key(1), history_key(256));
    assert_eq!(seed_step(&None, b"a"), SeedStep::Write);
    assert_eq!(seed_step(&Some(b"a".to_vec()), b"a"), SeedStep::Done);
    assert_eq!(seed_step(&Some(b"b".to_vec()), b"a"), SeedStep::Fail);
}

#[test]
fn applied_updates_are_kept_and_served() {
    let network = network();
    let (mut state, first) = opened(&network);
    let base = state.head();
    let update = next_envelope(&network, &state);
    let batch =
        ConfigUpdateBatch::new(state.network_id(), base, vec![update.to_bytes()]).unwrap();
    let pending = state.plan(&batch, 500).unwrap().unwrap();
    let writes = pending.commit().writes();
    let expected: Vec<(Vec<u8>, Expected)> = writes
        .iter()
        .map(|write| (write.key.clone(), write.expected))
        .collect();
    assert_eq!(
        expected,
        vec![
            (b"config/envelope/v1".to_vec(), Expected::Exact(11)),
            (b"config/head/v1".to_vec(), Expected::Exact(12)),
            (b"config/signer-certificate/v1".to_vec(), Expected::Exact(13)),
            (history_key(2), Expected::Missing),
        ]
    );
    assert_eq!(writes[1].bytes, encode_head(pending.commit().head));
    assert_eq!(writes[3].bytes, update.to_bytes());
    let latest = Some(pending.commit().envelope.clone());
    let envelope = stored(pending.commit().envelope.clone(), 21);
    let head = stored(encode_head(pending.commit().head), 22);
    let signer = stored(pending.commit().signer.clone(), 23);
    assert_eq!(pending.commit().history.len(), 1);
    let confirmed = state.confirm(pending, &envelope, &head, &signer).unwrap();
    let later = next_envelope(&network, &state);
    let more =
        ConfigUpdateBatch::new(state.network_id(), confirmed, vec![later.to_bytes()]).unwrap();
    let planned = state.plan(&more, 500).unwrap().unwrap();
    assert_eq!(
        planned.commit().versions,
        StoredVersions {
            envelope: 21,
            head: 22,
            signer: 23,
        }
    );
    assert_eq!(confirmed.revision, 2);
    assert_eq!(state.head(), confirmed);
    assert_eq!(state.config().as_config().revision, 2);

    assert!(state.may_know(base));
    let served = state
        .updates_after(base, &Some(first.to_bytes()), &vec![latest])
        .unwrap();
    assert_eq!(served, batch);
    assert!(matches!(
        state.updates_after(base, &Some(first.to_bytes()), &vec![None]),
        Err(ConfigStateError::HistoryUnavailable)
    ));
    let reopened = PersistedConfigState::open(
        network.root.public(),
        key_copy(&network),
        envelope,
        head,
        signer,
        500,
    )
    .unwrap();
    assert_eq!(reopened.head(), confirmed);
    assert!(matches!(
        state.plan(&batch, 500),
        Err(ConfigStateError::BaseHeadMismatch)
    ));
}

#[test]
fn lost_commits_are_noticed() {
    let network = network();
    let (mut state, _) = opened(&network);
    let base = state.head();
    let update = next_envelope(&network, &state);
    let batch = ConfigUpdateBatch::new(state.network_id(), base, vec![update.to_bytes()]).unwrap();
    let pending = state.plan(&batch, 500).unwrap().unwrap();
    assert_eq!(
        state.confirm(pending, &None, &None, &None),
        Err(ConfigStateError::CommitLost)
    );
    assert_eq!(state.head(), base);
    let empty = ConfigUpdateBatch::new(state.network_id(), base, Vec::new()).unwrap();
    assert!(matches!(state.plan(&empty, 500), Ok(None)));
    let open_with = |envelope: Option<StoredRecord>, head: Option<StoredRecord>| {
        PersistedConfigState::open(
            network.root.public(),
            key_copy(&network),
            envelope,
            head,
            stored(network.admin_certificate.to_bytes(), 1),
            500,
        )
    };
    assert!(matches!(open_with(None, None), Err(ConfigStateError::NotJoined)));
    assert!(matches!(
        open_with(stored(update.to_bytes(), 1), stored(vec![0; 3], 1)),
        Err(ConfigStateError::MalformedHead)
    ));
}

#[test]
fn joining_a_network_opens_it() {
    let network = network();
    let id = network.root.public().network_id();
    let prepared = NetworkMembership::prepare_join(
        id,
        &network.signing,
        &network.encryption,
        &ENDPOINT_SECRET,
        MemberRoles::member(),
        5_000,
    )
    .unwrap();
    let kept = Some(prepared.to_bytes());
    let mut again = JoinPreparation::new(id, MemberRoles::member(), 9_000);
    assert_eq!(
        again.step(JoinEvent::Head { joined: false }),
        JoinStep::ReadRequest
    );
    assert_eq!(again.step(JoinEvent::Request(kept.clone())), JoinStep::Ready);
    assert_eq!(again.finish().unwrap().to_bytes(), prepared.to_bytes());
    let mut late = JoinPreparation::new(id, MemberRoles::member(), 9_000);
    assert_eq!(
        late.step(JoinEvent::Head { joined: true }),
        JoinStep::Fail(MembershipError::AlreadyJoined)
    );
    assert!(late.finish().is_none());
    assert!(matches!(
        NetworkMembership::prepared_request(&None, id, 500),
        Err(MembershipError::NotPrepared)
    ));
    let request = NetworkMembership::prepared_request(&kept, id, 500).unwrap();
    assert_eq!(
        NetworkMembership::check_encryption(&request, &network.encryption),
        Ok(())
    );
    assert_eq!(
        NetworkMembership::check_endpoint(&request, &ENDPOINT_SECRET),
        Ok(())
    );
    assert_eq!(
        NetworkMembership::check_signing(&request, &network.signing),
        Ok(())
    );
    let stranger = MemberEncryptionKeypair::from_secret_bytes([9; 32]).unwrap();
    assert_eq!(
        NetworkMembership::check_encryption(&request, &stranger),
        Err(MembershipError::SecretMismatch("member encryption"))
    );
    assert_eq!(
        NetworkMembership::check_endpoint(&request, &[1; 32]),
        Err(MembershipError::SecretMismatch("endpoint"))
    );
    assert_eq!(
        NetworkMembership::check_signing(&request, &SigningKeypair::from_bytes(&[1; 32])),
        Err(MembershipError::SecretMismatch("member signing"))
    );

    let (state, _) = opened(&network);
    let envelope = next_envelope(&network, &state);
    let ticket = TicketContents {
        admin_certificate: network.admin_certificate.to_bytes(),
        embedded_config: envelope.to_bytes(),
        config_head: ConfigHead {
            epoch: 0,
            revision: 2,
            hash: envelope.envelope_hash(),
        },
        member_certificate: network.member.to_bytes(),
        endpoint_binding: EndpointBinding::from_bytes(&prepared.endpoint_binding.to_bytes())
            .unwrap()
            .to_bytes(),
    };
    let commit =
        NetworkMembership::join(&network.root.public(), &request, &network.encryption, &ticket, 500)
            .unwrap();
    assert_eq!(commit.head, ticket.config_head);
    let changes = commit.changes(17);
    assert_eq!(changes.len(), 6);
    let expected: [(&[u8], Vec<u8>); 5] = [
        (b"config/envelope/v1", envelope.to_bytes()),
        (b"config/head/v1", encode_head(commit.head)),
        (
            b"config/signer-certificate/v1",
            network.admin_certificate.to_bytes(),
        ),
        (b"membership/certificate/v1", network.member.to_bytes()),
        (
            b"membership/endpoint-binding/v1",
            prepared.endpoint_binding.to_bytes(),
        ),
    ];
    for (change, (key, bytes)) in changes.iter().zip(&expected) {
        match change {
            StoreChange::Put(write) => {
                assert_eq!(write.key, *key);
                assert_eq!(write.bytes, *bytes);
                assert_eq!(write.expected, Expected::Missing);
            }
            other => panic!("{other:?}"),
        }
    }
    match &changes[5] {
        StoreChange::Delete { key, expected } => {
            assert_eq!(*key, KEY_PREPARED_JOIN);
            assert_eq!(*expected, Expected::Exact(17));
        }
        other => panic!("{other:?}"),
    }
    let reopened = PersistedConfigState::open(
        network.root.public(),
        key_copy(&network),
        stored(commit.envelope, 1),
        stored(encode_head(commit.head), 1),
        stored(commit.signer, 1),
        500,
    )
    .unwrap();
    assert_eq!(reopened.head(), ticket.config_head);

    let other = SigningKeypair::from_bytes(&[0x99; 32]);
    let foreign = NetworkMembership::prepare_join_with(
        id,
        &other,
        &network.encryption,
        &ENDPOINT_SECRET,
        [1; 32],
        MemberRoles::member(),
        5_000,
    )
    .unwrap();
    let foreign =
        NetworkMembership::prepared_request(&Some(foreign.to_bytes()), id, 500).unwrap();
    assert!(matches!(
        NetworkMembership::join(&network.root.public(), &foreign, &network.encryption, &ticket, 500),
        Err(MembershipError::TicketMemberMismatch)
    ));
}

#[test]
fn stores_and_secrets_are_checked() {
    let good = StoreCapabilities {
        atomic_batches: true,
        durable_commits: true,
        secrets_in_memory_only: false,
    };
    assert!(stores_acceptable(good, false));
    let bad = StoreCapabilities {
        durable_commits: false,
        ..good
    };
    assert!(!stores_acceptable(bad, false));
    assert!(stores_acceptable(bad, true));
    assert_eq!(secret_key_bytes(&[1; 32]), Some([1; 32]));
    assert_eq!(secret_key_bytes(&[1; 31]), None);
    assert_ne!(
        member_secret_id(NETWORK, b"member-signing"),
        member_secret_id(NETWORK, b"member-encryption")
    );
}

fn peer(byte: u8) -> ConfigPeerDescriptor {
    ConfigPeerDescriptor {
        network_id: NETWORK,
        endpoint_id: EndpointId::from_bytes([byte; 32]),
        relay_url: None,
        direct_addresses: Vec::new(),
    }
}

#[test]
fn configurations_are_pulled_from_every_peer() {
    let head = ConfigHead {
        epoch: 0,
        revision: 1,
        hash: [1; 32],
    };
    let options = ConfigSyncOptions::default();
    assert_eq!(options.interval_ns, 30_000_000_000);
    assert!(options.is_valid());
    assert!(AntiEntropy::new(NETWORK, Vec::new(), options, head).is_none());
    assert!(AntiEntropy::new(NetworkId::from_bytes([0; 32]), vec![peer(1)], options, head).is_none());
    let mut sync = AntiEntropy::new(NETWORK, vec![peer(1), peer(2)], options, head).unwrap();
    assert_eq!(sync.delay_ns(), 0);
    assert_eq!(sync.begin_round(None, head), 0);
    assert!(matches!(
        sync.step(FetchOutcome::Failed("first".to_owned())),
        SyncAction::Fetch(1)
    ));
    match sync.step(FetchOutcome::Failed("second".to_owned())) {
        SyncAction::Report(ConfigSyncEvent::Failed {
            error, retry_in_ns, ..
        }) => {
            assert_eq!(error, "second");
            assert_eq!(retry_in_ns, 1_000_000_000);
        }
        other => panic!("{other:?}"),
    }
    assert_eq!(sync.delay_ns(), 1_000_000_000);
    sync.begin_round(None, head);
    sync.step(FetchOutcome::Failed(String::new()));
    sync.step(FetchOutcome::Failed(String::new()));
    assert_eq!(sync.delay_ns(), 2_000_000_000);
    assert_eq!(sync.begin_round(None, head), 0);
    assert!(matches!(
        sync.step(FetchOutcome::Applied {
            current: head,
            envelopes: 0
        }),
        SyncAction::Report(ConfigSyncEvent::UpToDate { .. })
    ));
    assert_eq!(sync.delay_ns(), 30_000_000_000);
    assert_eq!(sync.begin_round(None, head), 1);
    let newer = ConfigHead {
        revision: 2,
        ..head
    };
    assert!(matches!(
        sync.step(FetchOutcome::Applied {
            current: newer,
            envelopes: 1
        }),
        SyncAction::Report(ConfigSyncEvent::Applied { envelopes: 1, .. })
    ));
    assert_eq!(sync.begin_round(Some(vec![peer(3)]), newer), 0);
    assert_eq!(
        sync.target(0).unwrap().endpoint_id,
        EndpointId::from_bytes([3; 32])
    );
    assert!(sync.target(1).is_none());
}

#[test]
fn waits_shorter_than_a_millisecond_double_up_to_the_longest() {
    let head = ConfigHead {
        epoch: 0,
        revision: 1,
        hash: [1; 32],
    };
    let options = ConfigSyncOptions {
        interval_ns: 500_000,
        retry_min_ns: 300,
        retry_max_ns: 1_000,
    };
    assert!(options.is_valid());
    assert!(!ConfigSyncOptions {
        retry_max_ns: 299,
        ..options
    }
    .is_valid());
    let mut sync = AntiEntropy::new(NETWORK, vec![peer(1)], options, head).unwrap();
    let mut waits = Vec::new();
    for _ in 0..4 {
        assert_eq!(sync.begin_round(None, head), 0);
        match sync.step(FetchOutcome::Failed(String::new())) {
            SyncAction::Report(ConfigSyncEvent::Failed { retry_in_ns, .. }) => {
                waits.push(retry_in_ns)
            }
            other => panic!("{other:?}"),
        }
    }
    assert_eq!(waits, [300, 600, 1_000, 1_000]);
    sync.begin_round(None, head);
    sync.step(FetchOutcome::Applied {
        current: head,
        envelopes: 0,
    });
    assert_eq!(sync.delay_ns(), 500_000);
    sync.begin_round(None, head);
    assert!(matches!(
        sync.step(FetchOutcome::Failed(String::new())),
        SyncAction::Report(ConfigSyncEvent::Failed {
            retry_in_ns: 300,
            ..
        })
    ));
}

#[test]
fn presence_is_published_with_growing_sequences() {
    let made = fixture(0).unwrap();
    let signing = SigningKeypair::from_bytes(&fixed_key(SERVER_MEMBER_SECRET));
    let bindings =
        LocalBindings::new(vec![LocalBinding::Server(ServerAddr::new(made.server_app))]).unwrap();
    let way = Some(DiscoveryCandidate::Ip(SocketAddress::new(IpAddress::V4([10, 0, 0, 1]), 1)));
    let ways = vec![way.clone(), None];
    assert_eq!(published_candidates(&ways).len(), 1);
    let mut sequence = 0;
    let (first, expires) = prepare_publication(
        &made.config,
        &signing,
        made.server_endpoint,
        &bindings,
        &ways,
        120_000_999_999,
        &mut sequence,
        1_000,
    )
    .unwrap()
    .unwrap();
    assert_eq!(expires, 121_000);
    let earlier = sequence;
    let (second, _) = prepare_publication(
        &made.config,
        &signing,
        made.server_endpoint,
        &bindings,
        &ways,
        120_000_999_999,
        &mut sequence,
        1_000,
    )
    .unwrap()
    .unwrap();
    assert!(sequence > earlier);
    assert!(
        second.open(&made.config, 1_500).unwrap().sequence
            > first.open(&made.config, 1_500).unwrap().sequence
    );
    let stranger = SigningKeypair::from_bytes(&[1; 32]);
    let refused = prepare_publication(
        &made.config,
        &stranger,
        made.server_endpoint,
        &bindings,
        &ways,
        120_000_999_999,
        &mut sequence,
        1_000,
    );
    assert!(matches!(refused, Some(Err(DiscoveryError::NotAuthorized))));
}

#[test]
fn presence_of_every_endpoint_is_asked_for() {
    let made = fixture(0).unwrap();
    let mut round = PresenceRefresh::new(&made.config, made.client_endpoint).unwrap();
    assert_eq!(round.current(), Some(made.server_endpoint));
    assert!(round.step(QueryOutcome::Applied { changed: true }).is_none());
    assert_eq!(round.current(), None);
    assert!(matches!(
        round.report(),
        PresenceSyncEvent::Refreshed {
            queried: 1,
            applied: 1
        }
    ));
    let mut failing = PresenceRefresh::new(&made.config, made.client_endpoint).unwrap();
    assert!(matches!(
        failing.step(QueryOutcome::Failed("gone".to_owned())),
        Some(PresenceSyncEvent::Failed { .. })
    ));
    let options = PresenceSyncOptions::default();
    assert_eq!(options.publish_interval_ns, 60_000_000_000);
    assert_eq!(options.query_interval_ns, 15_000_000_000);
    assert_eq!(options.record_ttl_ns, 120_000_000_000);
    assert!(options.is_valid());
    let longest = PresenceSyncOptions {
        record_ttl_ns: 300_000_999_999,
        publish_interval_ns: 1,
        ..options
    };
    assert!(longest.is_valid());
    assert!(!PresenceSyncOptions {
        record_ttl_ns: 300_001_000_000,
        ..options
    }
    .is_valid());
    assert!(!PresenceSyncOptions {
        record_ttl_ns: 0,
        ..options
    }
    .is_valid());
    assert_eq!(signalled(Signal::Sent), Ok(()));
    assert_eq!(signalled(Signal::Full), Ok(()));
    assert_eq!(signalled(Signal::Closed), Err(ConfigSyncRuntimeError::Stopped));
}

#[test]
fn expiries_are_bounded() {
    assert_eq!(join_expiry(1_000, 2), Ok(7_201_000));
    let too_long = join_expiry(0, u64::MAX).unwrap_err();
    assert_eq!(too_long, ProvisionError::ExpiresHoursTooLarge);
    assert_eq!(too_long.message(), "--expires-hours is too large");
    let too_late = join_expiry(u64::MAX, 1).unwrap_err();
    assert_eq!(too_late, ProvisionError::JoinExpiryOverflow);
    assert_eq!(too_late.message(), "join request expiry overflow");
    let too_long = binding_expiry(0, u64::MAX, u64::MAX).unwrap_err();
    assert_eq!(too_long, ProvisionError::ValidDaysTooLarge);
    assert_eq!(too_long.message(), "--valid-days is too large");
    let too_late = binding_expiry(u64::MAX, 1, u64::MAX).unwrap_err();
    assert_eq!(too_late, ProvisionError::BindingExpiryOverflow);
    assert_eq!(too_late.message(), "application binding expiry overflow");
    assert_eq!(binding_expiry(0, 1, 100_000_000), Ok(86_400_000));
    assert_eq!(binding_expiry(0, 1, 50), Ok(50));
}

#[test]
fn keys_are_read_from_digits() {
    let key = [0x0f; 32];
    assert_eq!(encode_hex(&key), "0f".repeat(32));
    assert_eq!(decode_hex_32(&encode_hex(&key)), Ok(key));
    assert_eq!(decode_hex_32("0f"), Err(ProvisionError::KeyLength));
    assert_eq!(decode_hex_32(&"0g".repeat(32)), Err(ProvisionError::NotHexadecimal));
    assert_eq!(
        decode_hex_32(&format!("+1{}", "0".repeat(62))),
        Err(ProvisionError::NotHexadecimal)
    );
    assert_eq!(
        requested_roles(&vec![RequestedRole::Relay, RequestedRole::Member]),
        MemberRoles::member().union(MemberRoles::relay())
    );
}

#[test]
fn apps_are_bound_to_the_member() {
    let network = network();
    let id = network.root.public().network_id();
    let app = AppRootKey::from_bytes(&[0x71; 32]);
    assert!(matches!(
        app_root_from_secret(&[1; 31], app.app_addr()),
        Err(ProvisionError::CorruptAppRoot)
    ));
    assert!(matches!(
        app_root_from_secret(&[1; 32], app.app_addr()),
        Err(ProvisionError::WrongAppRoot)
    ));
    let root = app_root_from_secret(&app.to_bytes(), app.app_addr()).unwrap();
    assert_eq!(root.app_addr(), app.app_addr());
    assert!(matches!(joined_member(&None), Err(ProvisionError::NotJoined)));
    let member = joined_member(&Some(network.member.to_bytes())).unwrap();
    assert!(matches!(
        member_signing_key(&[1; 31], member.payload()),
        Err(ProvisionError::CorruptSigningKey)
    ));
    assert!(matches!(
        member_signing_key(&[1; 32], member.payload()),
        Err(ProvisionError::WrongSigningKey)
    ));
    let signing = member_signing_key(&network.signing.to_bytes(), member.payload()).unwrap();
    let (binding, device) = bind_app(
        id,
        &root,
        member.payload(),
        &signing,
        AppRole::Client,
        1,
        500,
    )
    .unwrap();
    assert_eq!(binding.payload().device_id, device);
    assert!(device.is_some());
    assert_eq!(binding.payload().expires_at_ms, 10_000);
    let (server, none) = bind_app(
        id,
        &root,
        member.payload(),
        &signing,
        AppRole::Server,
        1,
        500,
    )
    .unwrap();
    assert_eq!(none, None);
    assert_eq!(server.payload().subject, member.payload().member_id);
    assert_ne!(app_secret_id(id, app.app_addr()), app_secret_id(NETWORK, app.app_addr()));
    assert!(app_request_key(APP).ends_with(&[0x22; 32]));
    assert!(matches!(
        relay_of_endpoint(&fixture(0).unwrap().config, EndpointId::from_bytes([1; 32])),
        Err(ProvisionError::UnknownRelay)
    ));
}

#[test]
fn refused_updates_say_why() {
    let network = network();
    let (state, _) = opened(&network);
    let elsewhere = NetworkRootKey::from_bytes(&[1; 32]);
    let forged = EncryptedConfigEnvelope::seal(
        &elsewhere,
        0,
        1,
        state.head().hash,
        b"x",
        &[network.encryption.public_bytes()],
    )
    .unwrap();
    assert_eq!(
        ConfigUpdateBatch::new(state.network_id(), state.head(), vec![forged.to_bytes()]),
        Err(ConfigError::ChainMismatch)
    );
    let mut broken = next_envelope(&network, &state).to_bytes();
    let last = broken.len() - 1;
    broken[last] ^= 1;
    let batch = ConfigUpdateBatch::new(state.network_id(), state.head(), vec![broken]).unwrap();
    assert!(matches!(
        state.plan(&batch, 500),
        Err(ConfigStateError::Config(ConfigError::Signature(
            CertificateError::InvalidSignature
        )))
    ));
}
