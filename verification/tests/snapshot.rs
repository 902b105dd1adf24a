use weaver::config::chain::{ChainExpectation, ConfigHead};
use weaver::config::envelope::{ConfigError, EncryptedConfigEnvelope};
use weaver::config::sealing::MemberEncryptionKeypair;
use weaver::config::snapshot::{
    AdminKey, EpochSecrets, NetworkConfigV1, NetworkPolicy, PresenceServiceDescriptor,
    RelayDescriptor, RelayRoles, SnapshotError, VirtualDnsRecord, SNAPSHOT_MAGIC_V1,
};
use weaver::crypto::admin::AdminCertificate;
use weaver::crypto::app::{AppBinding, AppRegistration, AppRole};
use weaver::crypto::endpoint::EndpointBinding;
use weaver::crypto::keys::{
    derive_device_id, AppRootKey, CertificateError, NetworkRootKey, OnlineAdminKey, SigningKeypair,
};
use weaver::crypto::member::{MemberCertificate, MemberRoles};
use weaver::identifiers::{AppAddr, EndpointId, ServiceId};
use weaver::net::sync::{PresenceRefresh, PresenceSyncEvent};
use weaver::virtual_name::VirtualName;

struct Fixture {
    root: NetworkRootKey,
    encryption: MemberEncryptionKeypair,
    config: NetworkConfigV1,
}

fn fixture() -> Fixture {
    let root = NetworkRootKey::generate().unwrap();
    let network_id = root.public().network_id();
    let member_key = SigningKeypair::generate().unwrap();
    let admin_key = OnlineAdminKey::generate().unwrap();
    let admin_certificate =
        AdminCertificate::issue(&root, admin_key.public_bytes(), u32::MAX, 11, 100, 7_000)
            .unwrap();
    let encryption = MemberEncryptionKeypair::generate().unwrap();
    let member = MemberCertificate::issue(
        &root,
        member_key.public_bytes(),
        encryption.public_bytes(),
        MemberRoles::member().union(MemberRoles::service()),
        41,
        100,
        10_000,
    )
    .unwrap();
    let endpoint =
        EndpointBinding::issue(&member_key, member.payload(), [0x31; 32], 1, 9_000).unwrap();
    let app_root = AppRootKey::generate().unwrap();
    let app = AppRegistration::issue(&root, &app_root, 0);
    let device = derive_device_id(network_id, app_root.app_addr(), &member_key.public_bytes());
    let app_binding = AppBinding::issue(
        &app_root,
        network_id,
        member.payload().member_id,
        AppRole::Client,
        Some(device),
        9_000,
        vec![ServiceId::from_bytes([0x51; 16])],
    )
    .unwrap();
    Fixture {
        root,
        encryption,
        config: NetworkConfigV1 {
            network_id,
            epoch: 3,
            revision: 9,
            previous_hash: [0x11; 32],
            issued_at_ms: 100,
            expires_at_ms: 8_000,
            admin_keys: vec![AdminKey {
                certificate: admin_certificate.to_bytes(),
            }],
            members: vec![member.to_bytes()],
            endpoint_bindings: vec![endpoint.to_bytes()],
            revoked_serials: Vec::new(),
            apps: vec![app.to_bytes()],
            app_bindings: vec![app_binding.to_bytes()],
            virtual_dns: vec![VirtualDnsRecord {
                name: VirtualName::new("weaver.virtual".to_owned()).unwrap(),
                app_addr: app_root.app_addr(),
                expires_at_ms: 7_000,
            }],
            relays: vec![RelayDescriptor {
                endpoint_id: [0x61; 32],
                url: "https://relay.example.test".to_owned(),
                roles: RelayRoles::data_relay().union(RelayRoles::bootstrap()),
                expires_at_ms: 7_000,
            }],
            presence_services: vec![PresenceServiceDescriptor {
                endpoint_id: [0x61; 32],
                url: "https://relay.example.test/presence".to_owned(),
                expires_at_ms: 7_000,
            }],
            epoch_secrets: EpochSecrets::from_bytes([[0x71; 32]; 4]),
            policies: NetworkPolicy::default(),
        },
    }
}

#[test]
fn snapshot_round_trips_and_validates_complete_chain() {
    let fixture = fixture();
    let encoded = fixture.config.to_bytes().unwrap();
    let decoded = NetworkConfigV1::from_bytes(&encoded).unwrap();
    assert!(decoded == fixture.config);
    let validated = decoded
        .validate(
            &fixture.root.public(),
            fixture.root.public().network_id(),
            500,
        )
        .unwrap();
    assert_eq!(validated.as_config().revision, 9);
    assert_eq!(validated.as_config().relays.len(), 1);
    let name = VirtualName::new("weaver.virtual".to_owned()).unwrap();
    assert_eq!(
        validated.resolve_virtual_name(&name, 500),
        Some(fixture.config.virtual_dns[0].app_addr)
    );
    assert_eq!(validated.resolve_virtual_name(&name, 7_000), None);
}

#[test]
fn legacy_v1_snapshot_opens_with_an_empty_virtual_dns_zone() {
    let mut fixture = fixture();
    fixture.config.virtual_dns.clear();
    let mut encoded = fixture.config.to_bytes().unwrap().to_vec();
    let relay_endpoint = [0x61_u8; 32];
    let endpoint_offset = encoded
        .windows(relay_endpoint.len())
        .position(|window| window == relay_endpoint)
        .unwrap();
    assert_eq!(
        &encoded[endpoint_offset - 4..endpoint_offset],
        &[0, 0, 0, 1]
    );
    encoded.drain(endpoint_offset - 4..endpoint_offset - 2);
    encoded[..SNAPSHOT_MAGIC_V1.len()].copy_from_slice(&SNAPSHOT_MAGIC_V1);

    let decoded = NetworkConfigV1::from_bytes(&encoded).unwrap();
    assert!(decoded == fixture.config);
    assert!(decoded.virtual_dns.is_empty());
}

#[test]
fn typed_envelope_round_trips_snapshot_and_checks_metadata() {
    let fixture = fixture();
    let envelope = EncryptedConfigEnvelope::seal_config(
        &fixture.root,
        &fixture.config,
        &[fixture.encryption.public_bytes()],
    )
    .unwrap();
    let network = fixture.root.public().network_id();
    let opened = envelope
        .open_config(
            &fixture.root.public(),
            network,
            &fixture.encryption,
            ChainExpectation::Next(ConfigHead {
                epoch: 2,
                revision: 8,
                hash: fixture.config.previous_hash,
            }),
            500,
        )
        .unwrap();
    assert!(opened.config.as_config() == &fixture.config);
    assert_eq!(opened.head.revision, fixture.config.revision);

    let raw = fixture.config.to_bytes().unwrap();
    let mismatched = EncryptedConfigEnvelope::seal(
        &fixture.root,
        fixture.config.epoch,
        fixture.config.revision + 1,
        fixture.config.previous_hash,
        &raw,
        &[fixture.encryption.public_bytes()],
    )
    .unwrap();
    let result = mismatched.open_config(
        &fixture.root.public(),
        network,
        &fixture.encryption,
        ChainExpectation::Next(ConfigHead {
            epoch: 2,
            revision: 9,
            hash: fixture.config.previous_hash,
        }),
        500,
    );
    assert!(result == Err(ConfigError::EnvelopePayloadMismatch));
}

#[test]
fn snapshot_rejects_revoked_member_and_cross_network_validation() {
    let mut fixture = fixture();
    fixture.config.revoked_serials.push(41);
    assert!(fixture.config.clone().validate(
            &fixture.root.public(),
            fixture.root.public().network_id(),
            500
        ) == Err(SnapshotError::Credential(CertificateError::Revoked)));

    let other = NetworkRootKey::generate().unwrap();
    assert!(fixture
            .config
            .validate(&other.public(), other.public().network_id(), 500) == Err(SnapshotError::WrongNetwork));
}

#[test]
fn snapshot_rejects_trailing_bytes_duplicates_and_policy_overflow() {
    let fixture = fixture();
    let mut encoded = fixture.config.to_bytes().unwrap().to_vec();
    encoded.push(0);
    assert!(NetworkConfigV1::from_bytes(&encoded) == Err(SnapshotError::MalformedWire));

    let mut duplicate = fixture.config.clone();
    duplicate.members.push(duplicate.members[0].clone());
    assert!(duplicate.validate(
            &fixture.root.public(),
            fixture.root.public().network_id(),
            500
        ) == Err(SnapshotError::DuplicateEntry("member")));

    let mut policy = fixture.config;
    policy.policies.max_members = 0;
    assert_eq!(policy.to_bytes(), Err(SnapshotError::PolicyLimitExceeded));
}

#[test]
fn snapshot_rejects_duplicate_names_and_unknown_dns_targets() {
    let mut duplicate = fixture();
    duplicate
        .config
        .virtual_dns
        .push(duplicate.config.virtual_dns[0].clone());
    assert!(duplicate.config.validate(
            &duplicate.root.public(),
            duplicate.root.public().network_id(),
            500
        ) == Err(SnapshotError::DuplicateEntry("virtual DNS name")));

    let mut unknown = fixture();
    unknown.config.virtual_dns[0].app_addr = AppAddr::from_bytes([0xee; 32]);
    assert!(unknown.config.validate(
            &unknown.root.public(),
            unknown.root.public().network_id(),
            500
        ) == Err(SnapshotError::UnknownApplication));
}

#[test]
fn epoch_secrets_are_redacted_in_debug_output() {
    let secrets = EpochSecrets::from_bytes([[0xab; 32]; 4]);
    let debug = secrets.debug_text();
    assert_eq!(debug, "EpochSecrets([redacted])");
    assert!(!debug.contains("ab"));
}

#[test]
fn snapshot_validity_window_is_enforced() {
    let fixture = fixture();
    let root = fixture.root.public();
    let network = root.network_id();
    assert!(
        fixture.config.clone().validate(&root, network, 99) == Err(SnapshotError::NotYetValid)
    );
    assert!(fixture.config.clone().validate(&root, network, 8_000) == Err(SnapshotError::Expired));
    let mut backwards = fixture.config;
    backwards.expires_at_ms = 100;
    assert_eq!(backwards.to_bytes(), Err(SnapshotError::InvalidValidityWindow));
}

#[test]
fn snapshot_finds_its_administrators() {
    let fixture = fixture();
    let root = fixture.root.public();
    let key_id = AdminCertificate::from_bytes(&fixture.config.admin_keys[0].certificate)
        .unwrap()
        .payload()
        .key_id;
    let validated = fixture
        .config
        .validate(&root, root.network_id(), 500)
        .unwrap();
    let admin = validated.verified_admin(&root, key_id, 500).unwrap();
    assert_eq!(admin.payload().serial, 11);
    assert_eq!(
        validated.verified_admin(&root, [0; 16], 500),
        Err(SnapshotError::UnknownAdmin)
    );
    assert_eq!(
        validated.verified_admin(&root, key_id, 7_000),
        Err(SnapshotError::Credential(CertificateError::Expired))
    );
}

#[test]
fn snapshot_checks_every_list() {
    let base = fixture();
    let root = base.root.public();
    let network = root.network_id();

    let mut lists = base.config.clone();
    lists.revoked_serials = vec![5; 4097];
    assert_eq!(lists.to_bytes(), Err(SnapshotError::InvalidLength));

    let mut twice = base.config.clone();
    twice.revoked_serials = vec![5, 5];
    assert!(twice.validate(&root, network, 500) == Err(SnapshotError::DuplicateEntry("revoked serial")));

    let mut orphan = base.config.clone();
    orphan.members.clear();
    assert!(orphan.validate(&root, network, 500) == Err(SnapshotError::UnknownMember));

    let mut appless = base.config.clone();
    appless.apps.clear();
    appless.virtual_dns.clear();
    assert!(appless.validate(&root, network, 500) == Err(SnapshotError::UnknownApplication));
}

#[test]
fn snapshot_names_must_be_canonical_on_the_wire() {
    let fixture = fixture();
    let mut encoded = fixture.config.to_bytes().unwrap();
    let name = b"weaver.virtual";
    let at = encoded
        .windows(name.len())
        .position(|window| window == name)
        .unwrap();
    encoded[at] = b'W';
    assert!(NetworkConfigV1::from_bytes(&encoded) == Err(SnapshotError::InvalidVirtualName));
}

#[test]
fn epoch_secrets_are_drawn_and_kept() {
    let drawn = EpochSecrets::generate().unwrap();
    assert!(drawn != EpochSecrets::generate().unwrap());
    let kept = EpochSecrets::from_bytes([[1; 32], [2; 32], [3; 32], [4; 32]]);
    assert_eq!(kept.expose_bytes(), [[1; 32], [2; 32], [3; 32], [4; 32]]);
}

#[test]
fn relay_roles_combine() {
    let roles = RelayRoles::data_relay().union(RelayRoles::presence());
    assert_eq!(roles.bits(), 5);
    assert!(roles.contains(RelayRoles::presence()));
    assert!(!roles.contains(RelayRoles::bootstrap()));
    assert_eq!(RelayRoles::from_bits(3).bits(), 3);
}

#[test]
fn snapshots_are_read_whole() {
    let mut fixture = fixture();
    let named = fixture.config.to_bytes().unwrap();
    fixture.config.virtual_dns.clear();
    let mut legacy = fixture.config.to_bytes().unwrap();
    let at = legacy
        .windows(32)
        .position(|window| window == [0x61_u8; 32])
        .unwrap();
    legacy.drain(at - 4..at - 2);
    legacy[..SNAPSHOT_MAGIC_V1.len()].copy_from_slice(&SNAPSHOT_MAGIC_V1);
    for bytes in [named, legacy] {
        assert!(NetworkConfigV1::from_bytes(&bytes).is_ok());
        for end in 0..bytes.len() {
            assert!(NetworkConfigV1::from_bytes(&bytes[..end]) == Err(SnapshotError::MalformedWire));
        }
        for more in [vec![0], vec![1, 2, 3], bytes.clone()] {
            let longer = [bytes.clone(), more].concat();
            assert!(NetworkConfigV1::from_bytes(&longer) == Err(SnapshotError::MalformedWire));
        }
    }
}

#[test]
fn snapshots_have_one_form() {
    let bytes = fixture().config.to_bytes().unwrap();
    for at in 0..bytes.len() {
        let mut other = bytes.clone();
        other[at] ^= 1;
        if let Ok(config) = NetworkConfigV1::from_bytes(&other) {
            assert_eq!(config.to_bytes().unwrap(), other);
        }
    }
}

#[test]
fn revoking_any_listed_credential_is_noticed() {
    let fixture = fixture();
    let root = fixture.root.public();
    let network = root.network_id();
    assert!(fixture.config.clone().validate(&root, network, 500).is_ok());
    for serial in [11, 41] {
        let mut revoking = fixture.config.clone();
        revoking.revoked_serials.push(serial);
        assert!(
            revoking.validate(&root, network, 500)
                == Err(SnapshotError::Credential(CertificateError::Revoked))
        );
    }
    let mut unrelated = fixture.config.clone();
    unrelated.revoked_serials.push(42);
    assert!(unrelated.validate(&root, network, 500).is_ok());
    let other = NetworkRootKey::generate().unwrap().public();
    for (root, network) in [(&root, other.network_id()), (&other, network)] {
        assert!(
            fixture.config.clone().validate(root, network, 500) == Err(SnapshotError::WrongNetwork)
        );
    }
}

#[test]
fn applications_are_listed_once() {
    let fixture = fixture();
    let root = fixture.root.public();
    let network = root.network_id();
    let mut twice = fixture.config.clone();
    twice.apps.push(twice.apps[0].clone());
    assert!(
        twice.validate(&root, network, 500) == Err(SnapshotError::DuplicateEntry("application"))
    );
    let stranger = NetworkRootKey::generate().unwrap();
    let mut unknown = fixture.config.clone();
    unknown.apps.push(
        AppRegistration::issue(&stranger, &AppRootKey::generate().unwrap(), 0).to_bytes(),
    );
    assert!(unknown.validate(&root, network, 500) == Err(SnapshotError::UnknownAdmin));
}

#[test]
fn an_endpoint_that_is_no_key_is_reported() {
    let mut fixture = fixture();
    let root = fixture.root.public();
    let bad = (0..=255_u8)
        .map(|byte| [byte; 32])
        .find(|bytes| iroh::EndpointId::from_bytes(bytes).is_err())
        .unwrap();
    let signing = SigningKeypair::generate().unwrap();
    let member = MemberCertificate::issue(
        &fixture.root,
        signing.public_bytes(),
        [0x45; 32],
        MemberRoles::member(),
        43,
        100,
        10_000,
    )
    .unwrap();
    let binding = EndpointBinding::issue(&signing, member.payload(), bad, 1, 9_000).unwrap();
    fixture.config.members.push(member.to_bytes());
    fixture.config.endpoint_bindings = vec![binding.to_bytes()];
    let config = fixture
        .config
        .validate(&root, root.network_id(), 500)
        .unwrap();
    let event = PresenceRefresh::new(&config, EndpointId::from_bytes([1; 32])).unwrap_err();
    let words = iroh::EndpointId::from_bytes(&bad).unwrap_err().to_string();
    assert_eq!(
        event,
        PresenceSyncEvent::Failed {
            operation: "query",
            error: words,
        }
    );
}

#[test]
fn envelopes_open_at_their_place_only() {
    let fixture = fixture();
    let root = fixture.root.public();
    let network = root.network_id();
    let envelope = EncryptedConfigEnvelope::seal(
        &fixture.root,
        1,
        4,
        [9; 32],
        b"payload",
        &[fixture.encryption.public_bytes()],
    )
    .unwrap();
    let before = ChainExpectation::Next(ConfigHead {
        epoch: 1,
        revision: 3,
        hash: [9; 32],
    });
    let opened = envelope
        .open(&root, network, &fixture.encryption, before)
        .unwrap();
    let other = NetworkRootKey::generate().unwrap().public().network_id();
    assert_eq!(
        envelope.open(&root, other, &fixture.encryption, before),
        Err(ConfigError::WrongNetwork)
    );
    for expected in [
        ChainExpectation::Next(opened.head),
        ChainExpectation::Genesis,
    ] {
        assert_eq!(
            envelope.open(&root, network, &fixture.encryption, expected),
            Err(ConfigError::ChainMismatch)
        );
    }
    let stranger = MemberEncryptionKeypair::generate().unwrap();
    assert_eq!(
        envelope.open(&root, network, &stranger, before),
        Err(ConfigError::NoRecipientWrap)
    );
}
