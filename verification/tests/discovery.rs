use weaver::config::snapshot::{EpochSecrets, NetworkConfigV1, NetworkPolicy};
use weaver::config::validate::ValidatedNetworkConfig;
use weaver::crypto::app::{AppBinding, AppRegistration, AppRole};
use weaver::crypto::endpoint::EndpointBinding;
use weaver::crypto::keys::{AppRootKey, NetworkRootKey, SigningKeypair};
use weaver::crypto::member::{MemberCertificate, MemberRoles};
use weaver::discovery::address::{IpAddress, SocketAddress};
use weaver::discovery::authorize::{authorize_endpoint_and_addr, configured_endpoint};
use weaver::discovery::cache::PresenceCache;
use weaver::discovery::directory::PresenceDirectory;
use weaver::discovery::lan::{
    announceable_addresses, protected_observation, published_addresses, Interface, LanObservation,
    LanPeer, LanPublisher, LanTag, ProtectedLanDiscovery, LAN_SLOT_MS,
};
use weaver::discovery::lookup::{AddressLookupSource, AddressLookupUpdate, WeaverAddressLookup};
use weaver::discovery::presence::{
    decode_presence_payload, encode_presence_payload, DiscoveryCandidate, DiscoveryError,
    PresenceRecord, DEFAULT_PRESENCE_TTL_MS,
};
use weaver::discovery::sealed::EncryptedPresenceRecord;
use weaver::identifiers::{AppAddr, DeviceId, EndpointId, MemberId, NetworkId, ScopedVirtualAddr};

fn v4(octets: [u8; 4], port: u16) -> SocketAddress {
    SocketAddress::new(IpAddress::V4(octets), port)
}

fn v6(octets: [u8; 16], port: u16) -> SocketAddress {
    SocketAddress::new(IpAddress::V6(octets), port)
}

fn app_of(address: ScopedVirtualAddr) -> AppAddr {
    match address {
        ScopedVirtualAddr::Server { app } | ScopedVirtualAddr::Client { app, .. } => app,
    }
}

struct Fixture {
    config: ValidatedNetworkConfig,
    signing: SigningKeypair,
    endpoint: EndpointId,
    address: ScopedVirtualAddr,
    second_address: ScopedVirtualAddr,
}

fn fixture(seed: [[u8; 32]; 4]) -> Fixture {
    let root = NetworkRootKey::generate().unwrap();
    let network_id = root.public().network_id();
    let signing = SigningKeypair::generate().unwrap();
    let endpoint = EndpointId::from_bytes(*iroh::SecretKey::generate().public().as_bytes());
    let member = MemberCertificate::issue(
        &root,
        signing.public_bytes(),
        [0x44; 32],
        MemberRoles::member().union(MemberRoles::service()),
        1,
        100,
        20_000_000,
    )
    .unwrap();
    let endpoint_binding = EndpointBinding::issue(
        &signing,
        member.payload(),
        *endpoint.as_bytes(),
        0,
        20_000_000,
    )
    .unwrap();
    let app = AppRootKey::generate().unwrap();
    let registration = AppRegistration::issue(&root, &app, 0);
    let binding = AppBinding::issue(
        &app,
        network_id,
        member.payload().member_id,
        AppRole::Server,
        None,
        20_000_000,
        Vec::new(),
    )
    .unwrap();
    let address = ScopedVirtualAddr::Server {
        app: app.app_addr(),
    };
    let second_app = AppRootKey::generate().unwrap();
    let second_registration = AppRegistration::issue(&root, &second_app, 0);
    let second_binding = AppBinding::issue(
        &second_app,
        network_id,
        member.payload().member_id,
        AppRole::Client,
        Some(DeviceId::from_bytes([0x45; 32])),
        20_000_000,
        Vec::new(),
    )
    .unwrap();
    let second_address = ScopedVirtualAddr::Client {
        app: second_app.app_addr(),
        device: DeviceId::from_bytes([0x45; 32]),
    };
    let config = NetworkConfigV1 {
        network_id,
        epoch: 7,
        revision: 12,
        previous_hash: [0x55; 32],
        issued_at_ms: 100,
        expires_at_ms: 20_000_000,
        admin_keys: Vec::new(),
        members: vec![member.to_bytes()],
        endpoint_bindings: vec![endpoint_binding.to_bytes()],
        revoked_serials: Vec::new(),
        apps: vec![registration.to_bytes(), second_registration.to_bytes()],
        app_bindings: vec![binding.to_bytes(), second_binding.to_bytes()],
        virtual_dns: Vec::new(),
        relays: Vec::new(),
        presence_services: Vec::new(),
        epoch_secrets: EpochSecrets::from_bytes(seed),
        policies: NetworkPolicy::default(),
    }
    .validate(&root.public(), network_id, 1_000)
    .unwrap();
    Fixture {
        config,
        signing,
        endpoint,
        address,
        second_address,
    }
}

#[test]
fn lan_tag_rotates_matches_adjacent_slot_and_is_network_scoped() {
    let first = fixture([[0x71; 32]; 4]);
    let second = fixture([[0x71; 32]; 4]);
    let discovery = ProtectedLanDiscovery::from_config(&first.config).unwrap();
    let other = ProtectedLanDiscovery::from_config(&second.config).unwrap();
    let now = LAN_SLOT_MS * 10 + 123;
    let tag = discovery.tag_for(first.endpoint, now);
    assert_eq!(discovery.txt_records(first.endpoint, now)[0], "v=1");
    assert_eq!(LanTag::from_txt(&tag.txt_value()).unwrap(), tag);
    assert_eq!(discovery.match_tag(tag, now), Some(first.endpoint));
    assert_eq!(
        discovery.match_tag(tag, now + LAN_SLOT_MS),
        Some(first.endpoint)
    );
    assert_eq!(discovery.match_tag(tag, now + LAN_SLOT_MS * 2), None);
    assert_eq!(other.match_tag(tag, now), None);
    assert_ne!(
        discovery.tag_for(first.endpoint, now),
        discovery.tag_for(first.endpoint, now + LAN_SLOT_MS)
    );
}

#[test]
fn encrypted_presence_hides_identity_verifies_signature_and_rejects_rollback() {
    let fixture = fixture([[0x81; 32], [0x82; 32], [0x83; 32], [0x84; 32]]);
    let candidates = vec![
        DiscoveryCandidate::Ip(v4([192, 168, 1, 8], 4433)),
        DiscoveryCandidate::Ip(v6([0xfd, 0, 0, 0, 0, 0, 0, 0, 0, 0, 0, 0, 0, 0, 0, 8], 4433)),
        DiscoveryCandidate::Relay("https://relay.example.test".to_owned()),
    ];
    let encrypted = EncryptedPresenceRecord::seal(
        &fixture.config,
        &fixture.signing,
        fixture.endpoint,
        vec![fixture.address, fixture.second_address],
        candidates.clone(),
        0x05,
        9,
        1_000,
        1_000 + DEFAULT_PRESENCE_TTL_MS,
    )
    .unwrap();
    let wire = encrypted.to_bytes().unwrap();
    assert!(!wire.windows(32).any(|window| {
        window == fixture.config.as_config().network_id.as_bytes()
            || window == app_of(fixture.address).as_bytes()
    }));
    let decoded = EncryptedPresenceRecord::from_bytes(&wire).unwrap();
    let opened = decoded.open(&fixture.config, 2_000).unwrap();
    assert_eq!(opened.endpoint_id, fixture.endpoint);
    assert_eq!(
        opened.virtual_addrs,
        vec![fixture.address, fixture.second_address]
    );
    assert_eq!(opened.candidates, candidates);

    let lookup = WeaverAddressLookup::new(fixture.config.as_config().network_id);
    let mut directory = PresenceDirectory::new(fixture.config.as_config().network_id, lookup);
    assert!(
        directory
            .apply_encrypted(&fixture.config, &decoded, 2_000)
            .unwrap()
    );
    assert!(
        !directory
            .apply_encrypted(&fixture.config, &decoded, 2_000)
            .unwrap()
    );
    assert_eq!(
        directory.resolve(fixture.address, 2_000),
        Some(fixture.endpoint)
    );
    assert_eq!(
        directory.resolve(fixture.second_address, 2_000),
        Some(fixture.endpoint)
    );
    directory.purge_expired(1_000 + DEFAULT_PRESENCE_TTL_MS);
    assert_eq!(directory.resolve(fixture.address, 2_000), None);

    let mut cache = PresenceCache::default();
    assert!(cache.apply(opened.clone()).unwrap());
    assert!(!cache.apply(opened.clone()).unwrap());
    let mut rollback = opened.clone();
    rollback.sequence -= 1;
    assert_eq!(cache.apply(rollback), Err(DiscoveryError::Rollback));
    let mut fork = opened;
    fork.candidates.clear();
    assert_eq!(cache.apply(fork), Err(DiscoveryError::Rollback));

    let mut tampered = wire.to_vec();
    *tampered.last_mut().unwrap() ^= 1;
    assert_eq!(
        EncryptedPresenceRecord::from_bytes(&tampered)
            .unwrap()
            .open(&fixture.config, 2_000),
        Err(DiscoveryError::DecryptionFailed)
    );
}

fn counts(candidates: &[DiscoveryCandidate]) -> (usize, usize) {
    let direct = candidates
        .iter()
        .filter(|candidate| matches!(candidate, DiscoveryCandidate::Ip(_)))
        .count();
    (direct, candidates.len() - direct)
}

#[test]
fn live_lookup_waits_for_late_lan_update_and_merges_presence() {
    let network_id = NetworkId::from_bytes([0xa1; 32]);
    let other_network = NetworkId::from_bytes([0xa2; 32]);
    let endpoint = EndpointId::from_bytes(*iroh::SecretKey::generate().public().as_bytes());
    let mut lookup = WeaverAddressLookup::new(network_id);
    lookup.watch(endpoint);
    assert_eq!(lookup.published(endpoint), None);

    let direct = v4([127, 0, 0, 1], 44221);
    lookup.apply_lan_observation(LanObservation {
        endpoint_id: endpoint,
        addresses: vec![direct],
        expired: false,
    });
    assert_eq!(
        lookup.published(endpoint).unwrap(),
        vec![DiscoveryCandidate::Ip(direct)]
    );

    let record = PresenceRecord {
        network_id,
        epoch: 1,
        virtual_addrs: vec![ScopedVirtualAddr::Server {
            app: AppAddr::from_bytes([0xb1; 32]),
        }],
        member_id: MemberId::from_bytes([0xc1; 32]),
        endpoint_id: endpoint,
        candidates: vec![DiscoveryCandidate::Relay(
            "https://relay.example.test".to_owned(),
        )],
        capabilities: 0,
        sequence: 1,
        issued_at_ms: 1,
        expires_at_ms: 2,
    };
    lookup.apply_presence(&record).unwrap();
    assert_eq!(counts(&lookup.published(endpoint).unwrap()), (1, 1));

    lookup.apply_lan_observation(LanObservation {
        endpoint_id: endpoint,
        addresses: Vec::new(),
        expired: true,
    });
    assert_eq!(counts(&lookup.published(endpoint).unwrap()), (0, 1));

    let mut foreign = record;
    foreign.network_id = other_network;
    assert_eq!(
        lookup.apply_presence(&foreign),
        Err(DiscoveryError::WrongNetwork)
    );

    let updates = lookup.take_updates();
    assert_eq!(updates.len(), 3);
    assert_eq!(updates[0].source, AddressLookupSource::ProtectedLan);
    assert_eq!(updates[0].candidate_count, 1);
    assert_eq!(updates[1].source, AddressLookupSource::EncryptedPresence);
    assert!(updates[2].expired);
    assert!(lookup.take_updates().is_empty());
}

#[test]
fn presence_payloads_round_trip_and_are_bounded() {
    let record = PresenceRecord {
        network_id: NetworkId::from_bytes([1; 32]),
        epoch: 3,
        virtual_addrs: vec![
            ScopedVirtualAddr::Server {
                app: AppAddr::from_bytes([2; 32]),
            },
            ScopedVirtualAddr::Client {
                app: AppAddr::from_bytes([3; 32]),
                device: DeviceId::from_bytes([4; 32]),
            },
        ],
        member_id: MemberId::from_bytes([5; 32]),
        endpoint_id: EndpointId::from_bytes(*iroh::SecretKey::from_bytes(&[6; 32]).public().as_bytes()),
        candidates: vec![
            DiscoveryCandidate::Ip(v4([10, 0, 0, 1], 1)),
            DiscoveryCandidate::Ip(v6([7; 16], 65535)),
            DiscoveryCandidate::Relay("https://relay.example.test/".to_owned()),
        ],
        capabilities: 9,
        sequence: 10,
        issued_at_ms: 11,
        expires_at_ms: 12,
    };
    let payload = encode_presence_payload(&record).unwrap();
    assert_eq!(&payload[..8], b"WVRPRP\x00\x02");
    let read = decode_presence_payload(&payload).unwrap();
    assert_eq!(read, record);
    assert!(read.same(&record));

    let mut trailing = payload.clone();
    trailing.push(0);
    assert_eq!(
        decode_presence_payload(&trailing),
        Err(DiscoveryError::MalformedWire)
    );
    let mut endless = record.clone();
    endless.candidates = vec![DiscoveryCandidate::Ip(v4([10, 0, 0, 1], 1)); 17];
    assert_eq!(
        decode_presence_payload(&encode_presence_payload(&endless).unwrap()),
        Err(DiscoveryError::InvalidPresence)
    );
    let mut nowhere = record.clone();
    nowhere.virtual_addrs.clear();
    assert_eq!(
        decode_presence_payload(&encode_presence_payload(&nowhere).unwrap()),
        Err(DiscoveryError::InvalidPresence)
    );
}

#[test]
fn presence_is_kept_to_its_epoch_and_window() {
    let fixture = fixture([[0x91; 32], [0x92; 32], [0x93; 32], [0x94; 32]]);
    let seal = |issued: u64, expires: u64| {
        EncryptedPresenceRecord::seal(
            &fixture.config,
            &fixture.signing,
            fixture.endpoint,
            vec![fixture.address],
            vec![DiscoveryCandidate::Ip(v4([10, 0, 0, 1], 4433))],
            0,
            1,
            issued,
            expires,
        )
    };
    assert_eq!(seal(1_000, 1_000), Err(DiscoveryError::InvalidPresence));
    assert_eq!(seal(1_000, 301_001), Err(DiscoveryError::InvalidPresence));
    let sealed = seal(1_000, 2_000).unwrap();
    assert_eq!(
        sealed.open(&fixture.config, 2_000),
        Err(DiscoveryError::InvalidPresence)
    );
    let (epoch, key) = EncryptedPresenceRecord::lookup_key(&fixture.config, fixture.endpoint);
    assert_eq!(epoch, 7);
    assert_eq!(sealed.opaque_key(), key);
    assert_eq!(sealed.epoch(), 7);
    let mut elsewhere = sealed.clone();
    elsewhere.epoch = 8;
    assert_eq!(
        elsewhere.open(&fixture.config, 1_500),
        Err(DiscoveryError::WrongEpoch)
    );
    let mut moved = sealed;
    moved.opaque_key[0] ^= 1;
    assert!(moved.open(&fixture.config, 1_500).is_err());

    let stranger = SigningKeypair::from_bytes(&[0x77; 32]);
    assert_eq!(
        EncryptedPresenceRecord::seal(
            &fixture.config,
            &stranger,
            fixture.endpoint,
            vec![fixture.address],
            Vec::new(),
            0,
            1,
            1_000,
            2_000,
        ),
        Err(DiscoveryError::NotAuthorized)
    );
}

#[test]
fn only_bound_endpoints_are_authorized() {
    let fixture = fixture([[0x91; 32]; 4]);
    let stranger = EndpointId::from_bytes([0x12; 32]);
    let member = fixture
        .config
        .as_config()
        .members
        .first()
        .map(|bytes| MemberCertificate::from_bytes(bytes).unwrap().payload().member_id)
        .unwrap();
    assert_eq!(
        authorize_endpoint_and_addr(&fixture.config, member, fixture.endpoint, fixture.address, 1_000),
        Ok(())
    );
    assert_eq!(
        authorize_endpoint_and_addr(&fixture.config, member, stranger, fixture.address, 1_000),
        Err(DiscoveryError::NotAuthorized)
    );
    assert_eq!(
        configured_endpoint(&fixture.config, fixture.address, 1_000),
        Ok(fixture.endpoint)
    );
    let unknown = ScopedVirtualAddr::Server {
        app: AppAddr::from_bytes([1; 32]),
    };
    assert_eq!(
        configured_endpoint(&fixture.config, unknown, 1_000),
        Err(DiscoveryError::NotAuthorized)
    );
}

#[test]
fn lan_peers_are_recognised_by_their_tag() {
    let fixture = fixture([[0x95; 32]; 4]);
    let protected = ProtectedLanDiscovery::from_config(&fixture.config).unwrap();
    let now = LAN_SLOT_MS * 4;
    let records = protected.txt_records(fixture.endpoint, now);
    let tag = protected.tag_for(fixture.endpoint, now);
    assert_eq!(records[1], tag.txt_value());
    assert_eq!(tag.digits().len(), 32);
    assert_eq!(tag.txt_value(), format!("t={}", tag.digits()));
    assert_eq!(LanTag::from_txt("t=00"), Err(DiscoveryError::MalformedTag));
    assert_eq!(
        LanTag::from_txt(&format!("u={}", tag.digits())),
        Err(DiscoveryError::MalformedTag)
    );
    assert_eq!(LanTag::from_bytes([3; 16]).as_bytes(), &[3; 16]);

    let address = v4([192, 168, 0, 2], 4433);
    let peer = |version: &str, tag: LanTag| LanPeer {
        peer_id: tag.digits(),
        version: Some(version.to_owned()),
        tag: Some(tag.digits()),
        addresses: vec![address],
        expired: false,
    };
    let seen = protected_observation(&protected, peer("1", tag), now).unwrap();
    assert_eq!(seen.endpoint_id, fixture.endpoint);
    assert_eq!(seen.addresses, vec![address]);
    assert!(!seen.expired);
    assert_eq!(protected_observation(&protected, peer("2", tag), now), None);
    assert_eq!(
        protected_observation(&protected, peer("1", LanTag::from_bytes([0; 16])), now),
        None
    );
}

#[test]
fn lan_publisher_rotates_its_tag() {
    let first = fixture([[0x96; 32]; 4]);
    let other = fixture([[0x97; 32]; 4]);
    let protected = ProtectedLanDiscovery::from_config(&first.config).unwrap();
    let foreign = ProtectedLanDiscovery::from_config(&other.config).unwrap();
    let mut publisher = LanPublisher::new(
        protected.clone(),
        first.endpoint,
        4433,
        vec![IpAddress::V4([192, 168, 0, 2]), IpAddress::V6([0xfe; 16])],
        LAN_SLOT_MS,
    );
    let before = publisher.peer_id();
    assert_eq!(before, protected.tag_for(first.endpoint, LAN_SLOT_MS).digits());
    assert!(!publisher.refresh_tag(LAN_SLOT_MS + 1));
    assert!(publisher.refresh_tag(LAN_SLOT_MS * 2));
    assert_ne!(publisher.peer_id(), before);
    publisher.replace_addresses(1, Vec::new());
    assert_eq!(publisher.port(), 1);
    assert!(publisher.addresses().is_empty());
    assert_eq!(
        publisher.replace_protection(foreign, LAN_SLOT_MS),
        Err(DiscoveryError::WrongNetwork)
    );
    assert_eq!(publisher.replace_protection(protected, LAN_SLOT_MS), Ok(()));
}

#[test]
fn only_usable_addresses_are_announced() {
    let wanted = IpAddress::V4([192, 168, 0, 2]);
    let down = Interface {
        up: false,
        loopback: false,
        addresses: vec![IpAddress::V4([10, 0, 0, 1])],
    };
    let loopback = Interface {
        up: true,
        loopback: true,
        addresses: vec![IpAddress::V4([127, 0, 0, 1])],
    };
    let up = Interface {
        up: true,
        loopback: false,
        addresses: vec![
            wanted,
            wanted,
            IpAddress::V4([0, 0, 0, 0]),
            IpAddress::V4([224, 0, 0, 1]),
        ],
    };
    assert_eq!(announceable_addresses(&vec![down, loopback, up]), vec![wanted]);
    assert_eq!(published_addresses(&Vec::new()), None);
    let (port, addresses) =
        published_addresses(&vec![v4([192, 168, 0, 2], 7), v4([192, 168, 0, 3], 8)]).unwrap();
    assert_eq!(port, 7);
    assert!(addresses.contains(&wanted));
    assert!(IpAddress::V4([0; 4]).is_unspecified());
    assert!(IpAddress::V6([0xff; 16]).is_multicast());
}

#[test]
fn sealing_under_a_given_nonce_is_repeatable() {
    let fixture = fixture([[0x91; 32], [0x92; 32], [0x93; 32], [0x94; 32]]);
    let seal = |expires: u64, nonce: [u8; 24]| {
        EncryptedPresenceRecord::seal_with_nonce(
            &fixture.config,
            &fixture.signing,
            fixture.endpoint,
            vec![fixture.address],
            Vec::new(),
            0,
            1,
            1_000,
            expires,
            nonce,
        )
    };
    let sealed = seal(2_000, [5; 24]).unwrap();
    assert_eq!(sealed.nonce, [5; 24]);
    assert_eq!(seal(2_000, [5; 24]), Ok(sealed.clone()));
    let other = seal(2_000, [6; 24]).unwrap().to_bytes().unwrap();
    assert_ne!(other[68..], sealed.to_bytes().unwrap()[68..]);
    let opened = sealed.open(&fixture.config, 1_500).unwrap();
    assert_eq!(opened.endpoint_id, fixture.endpoint);
    assert_eq!(opened.virtual_addrs, vec![fixture.address]);
    assert_eq!(opened.sequence, 1);
    assert_eq!(seal(1_000, [5; 24]), Err(DiscoveryError::InvalidPresence));
}

#[test]
fn directory_tells_of_each_change_once() {
    let network = NetworkId::from_bytes([1; 32]);
    let endpoint = EndpointId::from_bytes([2; 32]);
    let mut directory = PresenceDirectory::new(network, WeaverAddressLookup::new(network));
    directory.apply_lan_observation(LanObservation {
        endpoint_id: endpoint,
        addresses: vec![v4([192, 168, 0, 2], 4433)],
        expired: false,
    });
    directory.apply_lan_observation(LanObservation {
        endpoint_id: endpoint,
        addresses: Vec::new(),
        expired: true,
    });
    assert_eq!(
        directory.take_updates(),
        vec![
            AddressLookupUpdate {
                endpoint_id: endpoint,
                source: AddressLookupSource::ProtectedLan,
                expired: false,
                candidate_count: 1,
            },
            AddressLookupUpdate {
                endpoint_id: endpoint,
                source: AddressLookupSource::ProtectedLan,
                expired: true,
                candidate_count: 0,
            },
        ]
    );
    assert!(directory.take_updates().is_empty());
}

#[test]
fn a_validated_configuration_gives_its_contents_back() {
    let fixture = fixture([[0x91; 32]; 4]);
    let network = fixture.config.as_config().network_id;
    let members = fixture.config.as_config().members.clone();
    let config = fixture.config.into_config();
    assert_eq!(config.network_id, network);
    assert_eq!(config.members, members);
}

#[test]
fn a_record_with_an_undialable_relay_changes_nothing() {
    let fixture = fixture([[0x92; 32]; 4]);
    let network = fixture.config.as_config().network_id;
    let sealed = |url: &str, sequence: u64| {
        EncryptedPresenceRecord::seal(
            &fixture.config,
            &fixture.signing,
            fixture.endpoint,
            vec![fixture.address],
            vec![
                DiscoveryCandidate::Ip(v4([192, 168, 1, 8], 4433)),
                DiscoveryCandidate::Relay(url.to_owned()),
            ],
            0,
            sequence,
            1_000,
            1_000 + DEFAULT_PRESENCE_TTL_MS,
        )
        .unwrap()
    };
    let mut directory = PresenceDirectory::new(network, WeaverAddressLookup::new(network));
    assert!(directory
        .apply_encrypted(&fixture.config, &sealed("no address", 9), 2_000)
        .is_err());
    assert_eq!(directory.resolve(fixture.address, 2_000), None);
    assert!(directory.take_updates().is_empty());
    let earlier = sealed("https://relay.example.test", 5);
    assert_eq!(
        directory.apply_encrypted(&fixture.config, &earlier, 2_000),
        Ok(true)
    );
    assert_eq!(
        directory.resolve(fixture.address, 2_000),
        Some(fixture.endpoint)
    );
    assert_eq!(directory.take_updates().len(), 1);
    assert!(directory
        .apply_encrypted(&fixture.config, &sealed("no address", 10), 2_000)
        .is_err());
    assert!(directory.take_updates().is_empty());
    assert_eq!(
        directory.apply_encrypted(&fixture.config, &earlier, 2_000),
        Ok(false)
    );
}

#[test]
fn tags_are_spelled_as_numbers() {
    let fixture = fixture([[0x93; 32]; 4]);
    let discovery = ProtectedLanDiscovery::from_config(&fixture.config).unwrap();
    let tag = discovery.tag_for(fixture.endpoint, 1_000);
    let text = tag.txt_value();
    assert_eq!(LanTag::from_txt(&text), Ok(tag));
    for sign in ["-", " ", "g"] {
        let mut other = text.clone();
        other.replace_range(2..3, sign);
        assert_eq!(LanTag::from_txt(&other), Err(DiscoveryError::MalformedTag));
    }
    let mut bytes = *tag.as_bytes();
    bytes[0] = 0x0b;
    bytes[1] = 0x05;
    let spelled = LanTag::from_bytes(bytes).txt_value();
    let signed = format!("t=+b+5{}", &spelled[6..]);
    assert_eq!(LanTag::from_txt(&signed), Ok(LanTag::from_bytes(bytes)));
    for broken in ["++", "5+", "+g", "+ "] {
        let other = format!("t={broken}{}", &spelled[4..]);
        assert_eq!(LanTag::from_txt(&other), Err(DiscoveryError::MalformedTag));
    }
    assert_eq!(
        LanTag::from_txt(&text[..text.len() - 2]),
        Err(DiscoveryError::MalformedTag)
    );
}

#[test]
fn presence_payloads_have_one_form() {
    let record = PresenceRecord {
        network_id: NetworkId::from_bytes([1; 32]),
        epoch: 2,
        virtual_addrs: vec![ScopedVirtualAddr::Server {
            app: AppAddr::from_bytes([3; 32]),
        }],
        member_id: MemberId::from_bytes([4; 32]),
        endpoint_id: EndpointId::from_bytes(*iroh::SecretKey::from_bytes(&[5; 32]).public().as_bytes()),
        candidates: vec![DiscoveryCandidate::Relay("https://relay.example.test".to_owned())],
        capabilities: 6,
        sequence: 7,
        issued_at_ms: 8,
        expires_at_ms: 9,
    };
    let bytes = encode_presence_payload(&record).unwrap();
    let read = decode_presence_payload(&bytes).unwrap();
    assert_eq!(encode_presence_payload(&read).unwrap(), bytes);
    for at in 0..bytes.len() {
        let mut other = bytes.clone();
        other[at] ^= 1;
        if let Ok(read) = decode_presence_payload(&other) {
            assert_eq!(encode_presence_payload(&read).unwrap(), other);
        }
    }
}

#[test]
fn scopes_are_kept_but_not_published() {
    let scoped = SocketAddress::V6 {
        octets: [0xfe, 0x80, 0, 0, 0, 0, 0, 0, 0, 0, 0, 0, 0, 0, 0, 1],
        port: 4433,
        flow_info: 7,
        scope_id: 3,
    };
    let plain = SocketAddress::new(scoped.ip(), scoped.port());
    assert_ne!(scoped, plain);
    assert_eq!(
        published_addresses(&vec![scoped, plain]),
        Some((4433, vec![scoped.ip()]))
    );
    let fixture = fixture([[0x94; 32]; 4]);
    let sealed = EncryptedPresenceRecord::seal(
        &fixture.config,
        &fixture.signing,
        fixture.endpoint,
        vec![fixture.address],
        vec![DiscoveryCandidate::Ip(scoped)],
        0,
        1,
        1_000,
        1_000 + DEFAULT_PRESENCE_TTL_MS,
    )
    .unwrap();
    assert_eq!(
        sealed.open(&fixture.config, 2_000).unwrap().candidates,
        vec![DiscoveryCandidate::Ip(plain)]
    );
}
