use iroh::SecretKey;
use weaver::config::snapshot::{
    EpochSecrets, NetworkConfigV1, NetworkPolicy, PresenceServiceDescriptor, RelayDescriptor,
    RelayRoles, VirtualDnsRecord,
};
use weaver::config::validate::ValidatedNetworkConfig;
use weaver::crypto::app::{AppBinding, AppRegistration, AppRole};
use weaver::crypto::endpoint::EndpointBinding;
use weaver::crypto::keys::{derive_device_id, AppRootKey, NetworkRootKey, SigningKeypair};
use weaver::crypto::member::{MemberCertificate, MemberRoles};
use weaver::discovery::address::{IpAddress, SocketAddress};
use weaver::discovery::directory::PresenceDirectory;
use weaver::discovery::lookup::WeaverAddressLookup;
use weaver::discovery::presence::{DiscoveryCandidate, DiscoveryError};
use weaver::discovery::sealed::EncryptedPresenceRecord;
use weaver::fixture::{fixed_key, fixture, CLIENT_ENDPOINT_SECRET, SERVER_ENDPOINT_SECRET};
use weaver::identifiers::{
    AppAddr, ClientAddr, DeviceId, EndpointId, NetworkId, ScopedVirtualAddr, ServerAddr, VirtualAddr,
};
use weaver::net::authorize::{
    collect_client_authorizations, configured_client, configured_member_for_endpoint,
    sort_texts, LiveConfigAuthorizer, StaticNetworkAuthorizer,
};
use weaver::net::bindings::{LocalBinding, LocalBindings, LocalBindingsError};
use weaver::net::handle::{
    client_addr, dial_target, node_for_binding, resolve_configured_server, resolve_name,
    validate_server_target, NetworkHandleError,
};
use weaver::net::node::{
    check_admission, check_datagram, check_datagram_now, check_datagram_peer, check_dial,
    check_identity, check_network, classify_connection, DatagramError, Listeners, NodeConfig, Target,
};
use weaver::net::paths::{describe_path, is_lan_ip, DirectPathScope, TransportPathKind};
use weaver::net::peers::{
    config_peer_descriptors, current_presence_target, discovered_descriptor, presence_endpoints,
    ConfigAuthorizationError, ConfigPeerDescriptor,
};
use weaver::net::protocol::{
    config_sync_alpn, presence_alpn, tcp_alpn, udp_alpn, NetworkError,
};
use weaver::virtual_name::VirtualName;

fn endpoint_of(secret: &SecretKey) -> EndpointId {
    EndpointId::from_bytes(*secret.public().as_bytes())
}

#[test]
fn signed_config_builds_multi_app_endpoint_authorizations() {
    let now = 500;
    let expires = 10_000;
    let root = NetworkRootKey::generate().unwrap();
    let network = root.public().network_id();
    let server_endpoint = SecretKey::generate();
    let client_endpoint = SecretKey::generate();
    let server_signing = SigningKeypair::generate().unwrap();
    let client_signing = SigningKeypair::generate().unwrap();
    let server_member = MemberCertificate::issue(
        &root,
        server_signing.public_bytes(),
        [0x11; 32],
        MemberRoles::member().union(MemberRoles::service()),
        1,
        100,
        expires,
    )
    .unwrap();
    let client_member = MemberCertificate::issue(
        &root,
        client_signing.public_bytes(),
        [0x12; 32],
        MemberRoles::member(),
        2,
        100,
        expires,
    )
    .unwrap();
    let server_endpoint_binding = EndpointBinding::issue(
        &server_signing,
        server_member.payload(),
        *server_endpoint.public().as_bytes(),
        0,
        expires,
    )
    .unwrap();
    let client_endpoint_binding = EndpointBinding::issue(
        &client_signing,
        client_member.payload(),
        *client_endpoint.public().as_bytes(),
        0,
        expires,
    )
    .unwrap();

    let server_app = AppRootKey::generate().unwrap();
    let first_client_app = AppRootKey::generate().unwrap();
    let second_client_app = AppRootKey::generate().unwrap();
    let server_registration = AppRegistration::issue(&root, &server_app, 0);
    let first_registration = AppRegistration::issue(&root, &first_client_app, 0);
    let second_registration = AppRegistration::issue(&root, &second_client_app, 0);
    let server_binding = AppBinding::issue(
        &server_app,
        network,
        server_member.payload().member_id,
        AppRole::Server,
        None,
        expires,
        Vec::new(),
    )
    .unwrap();
    let first_device = derive_device_id(
        network,
        first_client_app.app_addr(),
        &client_signing.public_bytes(),
    );
    let second_device = derive_device_id(
        network,
        second_client_app.app_addr(),
        &client_signing.public_bytes(),
    );
    let first_binding = AppBinding::issue(
        &first_client_app,
        network,
        client_member.payload().member_id,
        AppRole::Client,
        Some(first_device),
        expires,
        Vec::new(),
    )
    .unwrap();
    let second_binding = AppBinding::issue(
        &second_client_app,
        network,
        client_member.payload().member_id,
        AppRole::Client,
        Some(second_device),
        expires,
        Vec::new(),
    )
    .unwrap();
    let config = NetworkConfigV1 {
        network_id: network,
        epoch: 0,
        revision: 0,
        previous_hash: [0; 32],
        issued_at_ms: 100,
        expires_at_ms: expires,
        admin_keys: Vec::new(),
        members: vec![server_member.to_bytes(), client_member.to_bytes()],
        endpoint_bindings: vec![
            server_endpoint_binding.to_bytes(),
            client_endpoint_binding.to_bytes(),
        ],
        revoked_serials: Vec::new(),
        apps: vec![
            server_registration.to_bytes(),
            first_registration.to_bytes(),
            second_registration.to_bytes(),
        ],
        app_bindings: vec![
            server_binding.to_bytes(),
            first_binding.to_bytes(),
            second_binding.to_bytes(),
        ],
        virtual_dns: Vec::new(),
        relays: Vec::new(),
        presence_services: Vec::new(),
        epoch_secrets: EpochSecrets::from_bytes([[0x71; 32]; 4]),
        policies: NetworkPolicy::default(),
    }
    .validate(&root.public(), network, now)
    .unwrap();

    let server =
        NodeConfig::tcp_server_from_config(server_endpoint.to_bytes(), &config, server_app.app_addr())
            .unwrap();
    let authorized = server.allowed_clients.get(endpoint_of(&client_endpoint));
    assert_eq!(authorized.len(), 2);
    assert!(
        authorized.contains(&ScopedVirtualAddr::Client {
            app: first_client_app.app_addr(),
            device: first_device,
        })
    );
    assert!(
        authorized.contains(&ScopedVirtualAddr::Client {
            app: second_client_app.app_addr(),
            device: second_device,
        })
    );

    let client =
        NodeConfig::client_from_config(client_endpoint.to_bytes(), &config, first_client_app.app_addr())
            .unwrap();
    assert_eq!(
        client.local_bindings.iter(),
        vec![ScopedVirtualAddr::Client {
            app: first_client_app.app_addr(),
            device: first_device,
        }]
    );

    assert!(matches!(
        NodeConfig::client_from_config(
            SecretKey::generate().to_bytes(),
            &config,
            first_client_app.app_addr()
        ),
        Err(ConfigAuthorizationError::LocalEndpointNotMember)
    ));
}

const PEER_SECRET: [u8; 32] = [0x15; 32];
const SERVER_SECRET: [u8; 32] = [0x16; 32];

struct Setup {
    config: ValidatedNetworkConfig,
    server_endpoint: EndpointId,
    client_endpoint: EndpointId,
    server: ServerAddr,
    client: ClientAddr,
    server_signing: SigningKeypair,
}

fn setup() -> Setup {
    let root = NetworkRootKey::from_bytes(&[0x10; 32]);
    let network = root.public().network_id();
    let server_signing = SigningKeypair::from_bytes(&[0x11; 32]);
    let client_signing = SigningKeypair::from_bytes(&[0x12; 32]);
    let server_endpoint = endpoint_of(&SecretKey::from_bytes(&SERVER_SECRET));
    let client_endpoint = endpoint_of(&SecretKey::from_bytes(&PEER_SECRET));
    let server_app = AppRootKey::from_bytes(&[0x13; 32]);
    let client_app = AppRootKey::from_bytes(&[0x14; 32]);
    let member = |signing: &SigningKeypair, serial: u64| {
        MemberCertificate::issue(
            &root,
            signing.public_bytes(),
            [serial as u8; 32],
            MemberRoles::member(),
            serial,
            100,
            10_000,
        )
        .unwrap()
    };
    let server_member = member(&server_signing, 1);
    let client_member = member(&client_signing, 2);
    let device = derive_device_id(network, client_app.app_addr(), &client_signing.public_bytes());
    let server_binding = AppBinding::issue(
        &server_app,
        network,
        server_member.payload().member_id,
        AppRole::Server,
        None,
        10_000,
        Vec::new(),
    )
    .unwrap();
    let client_binding = AppBinding::issue(
        &client_app,
        network,
        client_member.payload().member_id,
        AppRole::Client,
        Some(device),
        10_000,
        Vec::new(),
    )
    .unwrap();
    let endpoint = |signing: &SigningKeypair, member: &MemberCertificate, id: EndpointId| {
        EndpointBinding::issue(signing, member.payload(), *id.as_bytes(), 0, 10_000)
            .unwrap()
            .to_bytes()
    };
    let config = NetworkConfigV1 {
        network_id: network,
        epoch: 0,
        revision: 0,
        previous_hash: [0; 32],
        issued_at_ms: 100,
        expires_at_ms: 10_000,
        admin_keys: Vec::new(),
        members: vec![server_member.to_bytes(), client_member.to_bytes()],
        endpoint_bindings: vec![
            endpoint(&server_signing, &server_member, server_endpoint),
            endpoint(&client_signing, &client_member, client_endpoint),
        ],
        revoked_serials: Vec::new(),
        apps: vec![
            AppRegistration::issue(&root, &server_app, 0).to_bytes(),
            AppRegistration::issue(&root, &client_app, 0).to_bytes(),
        ],
        app_bindings: vec![server_binding.to_bytes(), client_binding.to_bytes()],
        virtual_dns: vec![VirtualDnsRecord {
            name: VirtualName::new("server.virtual".to_owned()).unwrap(),
            app_addr: server_app.app_addr(),
            expires_at_ms: 9_000,
        }],
        relays: vec![RelayDescriptor {
            endpoint_id: *server_endpoint.as_bytes(),
            url: "https://relay.example.test/".to_owned(),
            roles: RelayRoles::data_relay(),
            expires_at_ms: 10_000,
        }],
        presence_services: vec![PresenceServiceDescriptor {
            endpoint_id: *server_endpoint.as_bytes(),
            url: "https://relay.example.test/".to_owned(),
            expires_at_ms: 10_000,
        }],
        epoch_secrets: EpochSecrets::from_bytes([[0x71; 32]; 4]),
        policies: NetworkPolicy::default(),
    }
    .validate(&root.public(), network, 500)
    .unwrap();
    Setup {
        config,
        server_endpoint,
        client_endpoint,
        server: ServerAddr::new(server_app.app_addr()),
        client: ClientAddr::new(client_app.app_addr(), device),
        server_signing,
    }
}

#[test]
fn local_bindings_are_distinct() {
    let server = LocalBinding::Server(ServerAddr::new(AppAddr::from_bytes([1; 32])));
    let client = LocalBinding::Client(ClientAddr::new(
        AppAddr::from_bytes([2; 32]),
        DeviceId::from_bytes([3; 32]),
    ));
    assert_eq!(LocalBindings::new(Vec::new()), Err(LocalBindingsError::Empty));
    assert_eq!(
        LocalBindings::new(vec![server, client, server]),
        Err(LocalBindingsError::Duplicate)
    );
    let bindings = LocalBindings::new(vec![client, server]).unwrap();
    assert!(bindings.contains(server.scoped()));
    assert!(bindings.contains_server(ServerAddr::new(AppAddr::from_bytes([1; 32]))));
    assert!(!bindings.contains_server(ServerAddr::new(AppAddr::from_bytes([2; 32]))));
    assert_eq!(bindings.servers().len(), 1);
    assert_eq!(bindings.clients().len(), 1);
    assert_eq!(bindings.iter().len(), 2);
    assert!(bindings == LocalBindings::new(vec![server, client]).unwrap());
    assert!(LocalBindings::control_plane().iter().is_empty());
    assert_eq!(
        LocalBindingsError::Empty.message(),
        "at least one local binding is required"
    );
}

#[test]
fn static_authorizer_lets_in_whom_it_lists() {
    let endpoint = EndpointId::from_bytes([1; 32]);
    let other = EndpointId::from_bytes([2; 32]);
    let address = ScopedVirtualAddr::Client {
        app: AppAddr::from_bytes([3; 32]),
        device: DeviceId::from_bytes([4; 32]),
    };
    let server = ScopedVirtualAddr::Server {
        app: AppAddr::from_bytes([5; 32]),
    };
    let clients = collect_client_authorizations(vec![(endpoint, address), (endpoint, address)]);
    assert_eq!(clients.get(endpoint), vec![address]);
    assert!(clients.contains(endpoint, address));
    assert!(!clients.contains(other, address));
    let authorizer = StaticNetworkAuthorizer {
        clients,
        config_peers: vec![endpoint],
        presence_peers: vec![other],
    };
    assert!(authorizer.allow_config_sync(endpoint));
    assert!(!authorizer.allow_config_sync(other));
    assert!(authorizer.allow_presence(other));
    assert!(!authorizer.allow_presence(endpoint));
    assert_eq!(authorizer.authorized_client_addrs(endpoint, server), vec![address]);
    assert!(authorizer.authorized_client_addrs(other, server).is_empty());
}

#[test]
fn live_authorizer_follows_the_configuration() {
    let setup = setup();
    let stranger = EndpointId::from_bytes([9; 32]);
    let mut live =
        LiveConfigAuthorizer::new(setup.config.clone(), setup.server_endpoint, 500).unwrap();
    assert!(matches!(
        LiveConfigAuthorizer::new(setup.config.clone(), stranger, 500),
        Err(ConfigAuthorizationError::LocalEndpointNotMember)
    ));
    assert!(live.allow_config_sync(setup.client_endpoint, 500));
    assert!(live.allow_presence(setup.client_endpoint, 500));
    assert!(!live.allow_config_sync(stranger, 500));
    assert!(!live.allow_config_sync(setup.client_endpoint, 10_000));
    assert_eq!(
        live.authorized_client_addrs(setup.client_endpoint, setup.server.scoped(), 500),
        vec![setup.client.scoped()]
    );
    assert!(live
        .authorized_client_addrs(setup.client_endpoint, setup.server.scoped(), 10_000)
        .is_empty());
    assert!(live
        .authorized_client_addrs(stranger, setup.server.scoped(), 500)
        .is_empty());
    assert_eq!(
        live.update(fixture(0).unwrap().config),
        Err(ConfigAuthorizationError::WrongNetwork)
    );
    assert_eq!(live.update(setup.config.clone()), Ok(()));
    assert!(live.config() == &setup.config);
    assert!(configured_member_for_endpoint(&setup.config, setup.client_endpoint, 500).is_some());
    assert!(configured_member_for_endpoint(&setup.config, stranger, 500).is_none());
    assert_eq!(
        configured_client(&setup.config, setup.client_endpoint, setup.client.app()),
        Ok(setup.client)
    );
    assert_eq!(
        configured_client(&setup.config, setup.server_endpoint, setup.client.app()),
        Err(ConfigAuthorizationError::ClientNotAuthorized)
    );
}

#[test]
fn nodes_are_set_up_from_the_configuration() {
    let setup = setup();
    let node = NodeConfig::tcp_server_from_config(SERVER_SECRET, &setup.config, setup.server.app())
        .unwrap();
    assert_eq!(node.relay_urls, vec!["https://relay.example.test/".to_owned()]);
    assert_eq!(
        node.served_alpns(),
        vec![tcp_alpn(setup.server.app()), udp_alpn(setup.server.app())]
    );
    assert!(node.accepts_connections());
    assert!(matches!(
        NodeConfig::tcp_server_from_config(PEER_SECRET, &setup.config, setup.server.app()),
        Err(ConfigAuthorizationError::ServerNotAuthorized)
    ));
    let client = NodeConfig::client_from_config(PEER_SECRET, &setup.config, setup.client.app())
        .unwrap();
    assert!(!client.accepts_connections());
    let client = client.with_config_update_source(vec![setup.server_endpoint]);
    assert!(client.accepts_connections());
    assert_eq!(
        client.served_alpns(),
        vec![config_sync_alpn(setup.config.as_config().network_id)]
    );
    let client = client
        .with_presence_store(vec![setup.server_endpoint])
        .with_relay_urls(Vec::new());
    assert!(client.serves_presence);
    assert!(client.relay_urls.is_empty());
    let bound = node_for_binding(
        PEER_SECRET,
        &setup.config,
        LocalBinding::Client(setup.client),
    )
    .unwrap();
    assert_eq!(bound.local_bindings.clients(), vec![setup.client]);
    let elsewhere = ClientAddr::new(setup.client.app(), DeviceId::from_bytes([0; 32]));
    assert!(matches!(
        node_for_binding(PEER_SECRET, &setup.config, LocalBinding::Client(elsewhere)),
        Err(NetworkHandleError::ClientAddressMismatch)
    ));
}

#[test]
fn connections_reach_what_they_name() {
    let network = NetworkId::from_bytes([1; 32]);
    let server = ServerAddr::new(AppAddr::from_bytes([2; 32]));
    let other = AppAddr::from_bytes([3; 32]);
    let bindings = LocalBindings::new(vec![LocalBinding::Server(server)]).unwrap();
    let target = |alpn: Vec<u8>| classify_connection(&alpn, network, &bindings);
    assert_eq!(target(tcp_alpn(server.app())), Target::Stream(server));
    assert_eq!(target(udp_alpn(server.app())), Target::Datagrams(server));
    assert_eq!(target(config_sync_alpn(network)), Target::ConfigSync);
    assert_eq!(target(presence_alpn(network)), Target::Presence);
    assert_eq!(target(tcp_alpn(other)), Target::Unknown);
    assert_eq!(target(Vec::new()), Target::Unknown);
    assert_eq!(check_admission(Target::Stream(server), false, true), Ok(()));
    assert_eq!(
        check_admission(Target::Stream(server), true, false),
        Err("endpoint not allowed")
    );
    assert_eq!(
        check_admission(Target::ConfigSync, false, true),
        Err("config sync disabled")
    );
    assert_eq!(
        check_admission(Target::Presence, true, false),
        Err("presence peer not allowed")
    );
    assert_eq!(
        check_admission(Target::Unknown, true, true),
        Err("unknown application binding")
    );
}

#[test]
fn listeners_are_taken_once() {
    let server = ServerAddr::new(AppAddr::from_bytes([2; 32]));
    let other = ServerAddr::new(AppAddr::from_bytes([3; 32]));
    let bindings = LocalBindings::new(vec![LocalBinding::Server(server)]).unwrap();
    let mut listeners = Listeners::new(&bindings);
    assert_eq!(listeners.take(other), Err(NetworkError::ServerNotBound(other)));
    assert_eq!(listeners.take(server), Ok(()));
    assert_eq!(
        listeners.take(server),
        Err(NetworkError::ListenerAlreadyTaken(server))
    );
}

#[test]
fn dialling_is_checked_first() {
    let network = NetworkId::from_bytes([1; 32]);
    let foreign = NetworkId::from_bytes([2; 32]);
    let client = ClientAddr::new(AppAddr::from_bytes([3; 32]), DeviceId::from_bytes([4; 32]));
    let bindings = LocalBindings::new(vec![LocalBinding::Client(client)]).unwrap();
    let nothing = LocalBindings::control_plane();
    assert_eq!(check_dial(&bindings, network, client, network), Ok(()));
    assert_eq!(
        check_dial(&nothing, network, client, network),
        Err(NetworkError::ClientNotBound(client))
    );
    assert_eq!(
        check_dial(&bindings, network, client, foreign),
        Err(NetworkError::NetworkMismatch {
            local: network,
            target: foreign
        })
    );
    assert!(check_network(network, foreign).is_err());
    let one = EndpointId::from_bytes([5; 32]);
    let two = EndpointId::from_bytes([6; 32]);
    assert_eq!(check_identity(one, one, "wrong peer"), Ok(()));
    assert_eq!(
        check_identity(one, two, "wrong peer"),
        Err(NetworkError::ProtocolViolation("wrong peer"))
    );
}

#[test]
fn datagrams_fit_or_are_refused() {
    assert_eq!(check_datagram(10, Some(10)), Ok(()));
    assert_eq!(
        check_datagram(11, Some(10)),
        Err(DatagramError::TooLong {
            len: 11,
            maximum: 10
        })
    );
    assert_eq!(check_datagram(1, None), Err(DatagramError::Unsupported));
    assert_eq!(check_datagram_now(10, Some(10), 9), Err(DatagramError::WouldBlock));
    assert_eq!(check_datagram_now(10, Some(10), 10), Ok(()));
    let one = ScopedVirtualAddr::Server {
        app: AppAddr::from_bytes([1; 32]),
    };
    let two = ScopedVirtualAddr::Server {
        app: AppAddr::from_bytes([2; 32]),
    };
    assert_eq!(check_datagram_peer(one, one), Ok(()));
    assert_eq!(check_datagram_peer(one, two), Err(DatagramError::DifferentPeer));
}

#[test]
fn targets_are_resolved_through_the_configuration() {
    let setup = setup();
    let network = setup.config.as_config().network_id;
    let name = VirtualName::new("server.virtual".to_owned()).unwrap();
    let other = VirtualName::new("other.virtual".to_owned()).unwrap();
    assert_eq!(resolve_name(&setup.config, &name, 500), Ok(setup.server));
    assert_eq!(
        resolve_name(&setup.config, &name, 9_000),
        Err(NetworkHandleError::UnknownVirtualName(name))
    );
    assert_eq!(
        resolve_name(&setup.config, &other, 500),
        Err(NetworkHandleError::UnknownVirtualName(other.clone()))
    );
    let directory = PresenceDirectory::new(network, WeaverAddressLookup::new(network));
    assert_eq!(
        resolve_configured_server(&directory, &setup.config, setup.server.app(), 500),
        Ok(setup.server_endpoint)
    );
    let target = VirtualAddr::server(network, setup.server);
    assert_eq!(validate_server_target(network, target), Ok(setup.server.app()));
    assert_eq!(
        validate_server_target(network, VirtualAddr::client(network, setup.client)),
        Err(NetworkHandleError::TargetMustBeServer)
    );
    let foreign = NetworkId::from_bytes([0; 32]);
    assert_eq!(
        validate_server_target(foreign, target),
        Err(NetworkHandleError::NetworkMismatch {
            local: foreign,
            target: network
        })
    );
    let peer = dial_target(network, &directory, &setup.config, target, 500).unwrap();
    assert_eq!(peer.endpoint_id, setup.server_endpoint);
    assert_eq!(peer.app_addr, setup.server.app());
    assert_eq!(client_addr(setup.client.scoped()), Some(setup.client));
    assert_eq!(client_addr(setup.server.scoped()), None);
}

#[test]
fn peers_are_found_in_the_configuration_and_by_presence() {
    let setup = setup();
    let network = setup.config.as_config().network_id;
    let service = ConfigPeerDescriptor::first_presence_service(&setup.config).unwrap();
    assert_eq!(service.endpoint_id, setup.server_endpoint);
    assert_eq!(
        service.relay_url,
        Some("https://relay.example.test/".to_owned())
    );
    assert!(matches!(
        ConfigPeerDescriptor::first_presence_service(&fixture(0).unwrap().config),
        Err(ConfigAuthorizationError::NoPresenceService)
    ));
    let scoped = SocketAddress::V6 {
        octets: [0xfe, 0x80, 0, 0, 0, 0, 0, 0, 0, 0, 0, 0, 0, 0, 0, 1],
        port: 4433,
        flow_info: 7,
        scope_id: 3,
    };
    let fallback = ConfigPeerDescriptor {
        network_id: network,
        endpoint_id: setup.client_endpoint,
        relay_url: None,
        direct_addresses: vec![scoped],
    };
    assert_eq!(
        fallback.endpoint_addr(),
        (setup.client_endpoint, vec![DiscoveryCandidate::Ip(scoped)])
    );
    assert_eq!(
        current_presence_target(&fallback, &setup.config).endpoint_id,
        setup.server_endpoint
    );
    assert_eq!(
        current_presence_target(&fallback, &fixture(0).unwrap().config).endpoint_id,
        setup.client_endpoint
    );
    assert!(config_peer_descriptors(&setup.config, setup.client_endpoint)
        .iter()
        .any(|peer| peer.endpoint_id == setup.server_endpoint));
    assert_eq!(
        presence_endpoints(&setup.config, setup.client_endpoint),
        Ok(vec![setup.server_endpoint])
    );

    let mut directory = PresenceDirectory::new(network, WeaverAddressLookup::new(network));
    assert!(matches!(
        discovered_descriptor(network, &directory, setup.server.app(), 600),
        Err(NetworkError::VirtualAddressUnresolved(_))
    ));
    let sealed = EncryptedPresenceRecord::seal(
        &setup.config,
        &setup.server_signing,
        setup.server_endpoint,
        vec![setup.server.scoped()],
        vec![DiscoveryCandidate::Ip(SocketAddress::new(IpAddress::V4([10, 0, 0, 1]), 4433))],
        0,
        1,
        500,
        1_000,
    )
    .unwrap();
    assert_eq!(directory.apply_encrypted(&setup.config, &sealed, 600), Ok(true));
    let peer = discovered_descriptor(network, &directory, setup.server.app(), 600).unwrap();
    assert_eq!(peer.endpoint_id, setup.server_endpoint);
    assert!(peer.relay_only().direct_addresses.is_empty());
    assert_eq!(peer.endpoint_addr().0, setup.server_endpoint);
    assert_eq!(
        directory.configured_endpoint(&setup.config, setup.server.scoped(), 600),
        Ok(setup.server_endpoint)
    );
    assert_eq!(
        directory.apply_encrypted(&fixture(0).unwrap().config, &sealed, 600),
        Err(DiscoveryError::WrongNetwork)
    );
}

#[test]
fn paths_are_told_apart() {
    let near = SocketAddress::new(IpAddress::V4([192, 168, 1, 2]), 1);
    let far = SocketAddress::new(IpAddress::V4([8, 8, 8, 8]), 1);
    let direct = describe_path(true, false, Some(near), true, 5);
    assert_eq!(direct.kind, TransportPathKind::Direct);
    assert_eq!(direct.direct_scope, Some(DirectPathScope::Lan));
    assert_eq!(direct.rtt_ns, 5);
    assert_eq!(
        describe_path(true, false, Some(far), false, 5).direct_scope,
        Some(DirectPathScope::Wan)
    );
    let relay = describe_path(false, true, None, false, 5);
    assert_eq!(relay.kind, TransportPathKind::Relay);
    assert_eq!(relay.direct_scope, None);
    assert_eq!(
        describe_path(false, false, None, false, 5).kind,
        TransportPathKind::Other
    );
    let mut v6 = [0u8; 16];
    v6[15] = 1;
    assert!(is_lan_ip(IpAddress::V6(v6)));
    assert!(is_lan_ip(IpAddress::V4([100, 64, 0, 1])));
    assert!(!is_lan_ip(IpAddress::V4([172, 32, 0, 1])));
}

#[test]
fn texts_are_sorted() {
    let sorted = sort_texts(vec!["b".to_owned(), "a".to_owned(), "ab".to_owned()]);
    assert_eq!(sorted, vec!["a".to_owned(), "ab".to_owned(), "b".to_owned()]);
}

#[test]
fn benchmark_network_is_complete() {
    let made = fixture(1_000).unwrap();
    assert_eq!(
        made.server_endpoint,
        endpoint_of(&SecretKey::from_bytes(&fixed_key(SERVER_ENDPOINT_SECRET)))
    );
    assert_eq!(
        made.client_endpoint,
        endpoint_of(&SecretKey::from_bytes(&fixed_key(CLIENT_ENDPOINT_SECRET)))
    );
    let node = NodeConfig::tcp_server_from_config(
        fixed_key(SERVER_ENDPOINT_SECRET),
        &made.config,
        made.server_app,
    )
    .unwrap();
    assert_eq!(node.allowed_clients.get(made.client_endpoint), vec![made.client_addr]);
    assert_eq!(made.config.as_config().members.len(), 2);
}
