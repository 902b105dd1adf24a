//! How an endpoint is set up, and what it does with those who connect or are to be reached.
use crate::config::snapshot::Config;
use crate::config::validate::ValidatedNetworkConfig;
use crate::identifiers::{AppAddr, ClientAddr, EndpointId, NetworkId, ScopedVirtualAddr, ServerAddr};
use crate::net::authorize;
use crate::net::authorize::{
    collect_client_authorizations, configured_client, sort_texts, ClientAuthorizations,
    ConfigAuthorizations,
};
use crate::net::bindings;
use crate::net::bindings::{LocalBinding, LocalBindings};
use crate::net::peers::ConfigAuthorizationError;
use crate::net::protocol;
use crate::net::protocol::{
    config_sync_alpn, presence_alpn, tcp_alpn, udp_alpn, NetworkError, CONFIG_SYNC_ALPN_PREFIX,
    DATAGRAM_ALPN_PREFIX, PRESENCE_ALPN_PREFIX, RELIABLE_STREAM_ALPN_PREFIX,
};
use crate::outside;
use crate::outside::endpoint_public_key;
use crate::wire;
use crate::wire::bytes_equal;
use vstd::prelude::*;

verus! {

/// The name of an application's reliable-stream protocol.
pub open spec fn stream_name(app: AppAddr) -> Seq<u8> {
    RELIABLE_STREAM_ALPN_PREFIX@ + app@
}

/// The name of an application's datagram protocol.
pub open spec fn datagram_name(app: AppAddr) -> Seq<u8> {
    DATAGRAM_ALPN_PREFIX@ + app@
}

/// The name of a network's configuration protocol.
pub open spec fn config_name(network: NetworkId) -> Seq<u8> {
    CONFIG_SYNC_ALPN_PREFIX@ + network@
}

/// The name of a network's presence protocol.
pub open spec fn presence_name(network: NetworkId) -> Seq<u8> {
    PRESENCE_ALPN_PREFIX@ + network@
}

/// The bytes of each of several protocol names.
pub open spec fn names(s: Seq<Vec<u8>>) -> Seq<Seq<u8>> {
    Seq::new(s.len(), |i: int| s[i]@)
}

/// The names of the protocols of servers: two for each.
pub open spec fn server_names(s: Seq<ServerAddr>) -> Seq<Seq<u8>>
    decreases s.len(),
{
    if s.len() == 0 {
        Seq::empty()
    } else {
        server_names(s.drop_last()).push(stream_name(s.last().app)).push(
            datagram_name(s.last().app),
        )
    }
}

/// Whether a list holds exactly the server addresses of a set, each once.
pub open spec fn lists_servers(s: Seq<ServerAddr>, held: Set<ScopedVirtualAddr>) -> bool {
    &&& s.no_duplicates()
    &&& forall|a: ServerAddr| #[trigger]
        s.contains(a) <==> held.contains(bindings::scoped_of(LocalBinding::Server(a)))
}

/// How an endpoint is set up.
pub struct NodeConfig {
    pub secret_key: [u8; 32],
    pub relay_url: Option<String>,
    pub relay_urls: Vec<String>,
    pub accept_alpns: Vec<Vec<u8>>,
    pub network_id: NetworkId,
    pub local_bindings: LocalBindings,
    pub allowed_clients: ClientAuthorizations,
    pub enable_direct_paths: bool,
    pub serves_config: bool,
    pub allowed_config_peers: Vec<EndpointId>,
    pub serves_presence: bool,
    pub allowed_presence_peers: Vec<EndpointId>,
}

impl Clone for NodeConfig {
    fn clone(&self) -> (copy: Self)
        ensures
            copy.secret_key == self.secret_key,
            copy.relay_url is Some == self.relay_url is Some,
            self.relay_url is Some ==> copy.relay_url->0@ == self.relay_url->0@,
            copy.relay_urls@.len() == self.relay_urls@.len(),
            forall|i: int|
                0 <= i < self.relay_urls@.len() ==> (#[trigger] copy.relay_urls@[i])@
                    == self.relay_urls@[i]@,
            names(copy.accept_alpns@) == names(self.accept_alpns@),
            copy.network_id == self.network_id,
            copy.local_bindings@ == self.local_bindings@,
            copy.allowed_clients@ == self.allowed_clients@,
            copy.enable_direct_paths == self.enable_direct_paths,
            copy.serves_config == self.serves_config,
            copy.allowed_config_peers@ == self.allowed_config_peers@,
            copy.serves_presence == self.serves_presence,
            copy.allowed_presence_peers@ == self.allowed_presence_peers@,
    {
        let relay_url: Option<String> = match &self.relay_url {
            Some(url) => Some(url.clone()),
            None => None,
        };
        let copy = NodeConfig {
            secret_key: self.secret_key,
            relay_url,
            relay_urls: self.relay_urls.clone(),
            accept_alpns: self.accept_alpns.clone(),
            network_id: self.network_id,
            local_bindings: self.local_bindings.clone(),
            allowed_clients: self.allowed_clients.clone(),
            enable_direct_paths: self.enable_direct_paths,
            serves_config: self.serves_config,
            allowed_config_peers: self.allowed_config_peers.clone(),
            serves_presence: self.serves_presence,
            allowed_presence_peers: self.allowed_presence_peers.clone(),
        };
        assert forall|i: int| 0 <= i < self.relay_urls@.len() implies (
        #[trigger] copy.relay_urls@[i])@ == self.relay_urls@[i]@ by {
            assert(cloned(self.relay_urls@[i], copy.relay_urls@[i]));
        }
        assert forall|i: int| 0 <= i < self.accept_alpns@.len() implies names(
            copy.accept_alpns@,
        )[i] == names(self.accept_alpns@)[i] by {
            assert(cloned(self.accept_alpns@[i], copy.accept_alpns@[i]));
            assert(copy.accept_alpns@[i]@ =~= self.accept_alpns@[i]@);
        }
        assert(names(copy.accept_alpns@) =~= names(self.accept_alpns@));
        assert(copy.allowed_config_peers@ =~= self.allowed_config_peers@);
        assert(copy.allowed_presence_peers@ =~= self.allowed_presence_peers@);
        copy
    }
}

/// Whether an endpoint is set up with this identity, network and addresses, accepts the
/// protocols of its servers, uses direct paths, and serves neither configurations nor presence.
pub open spec fn plain_node(
    node: NodeConfig,
    secret: [u8; 32],
    network: NetworkId,
    held: Set<ScopedVirtualAddr>,
) -> bool {
    &&& node.secret_key == secret
    &&& node.network_id == network
    &&& node.local_bindings@ == held
    &&& node.enable_direct_paths
    &&& !node.serves_config
    &&& !node.serves_presence
    &&& node.allowed_presence_peers@.len() == 0
    &&& exists|s: Seq<ServerAddr>|
        #[trigger] lists_servers(s, held) && names(node.accept_alpns@) == server_names(s)
}

/// Whether a result is an endpoint with this identity and these addresses, set up as a
/// configuration says.
pub open spec fn configured_node(
    c: Config,
    secret: [u8; 32],
    held: Set<ScopedVirtualAddr>,
    node: Result<NodeConfig, ConfigAuthorizationError>,
) -> bool {
    exists|res: Result<ConfigAuthorizations, ConfigAuthorizationError>|
        #[trigger] authorize::derives(
            c,
            EndpointId(wire::array_of(outside::endpoint_public(secret@))),
            held,
            res,
        ) && match res {
            Err(reason) => node matches Err(error) && error == reason,
            Ok(got) => {
                &&& node matches Ok(node)
                &&& plain_node(node, secret, c.network_id, held)
                &&& node.relay_urls@ == got.relay_urls@
                &&& match node.relay_url {
                    Some(url) => got.relay_urls@.len() > 0 && url@ == got.relay_urls@[0]@,
                    None => got.relay_urls@.len() == 0,
                }
                &&& node.allowed_clients@ == got.allowed_clients@
                &&& node.allowed_config_peers@ == got.member_endpoints@
            },
        }
}

/// The set of the one address of a binding.
fn sole_binding(binding: LocalBinding) -> (held: LocalBindings)
    ensures
        held@ == set![bindings::scoped_of(binding)],
{
    let mut list: Vec<LocalBinding> = Vec::new();
    list.push(binding);
    let ghost all = bindings::all_scoped(list@);
    assert(all =~= seq![bindings::scoped_of(binding)]);
    assert(all.to_set() =~= set![bindings::scoped_of(binding)]) by {
        assert(all[0] == bindings::scoped_of(binding));
    }
    match LocalBindings::new(list) {
        Ok(held) => held,
        Err(_) => LocalBindings::control_plane(),
    }
}

fn server_alpns(local_bindings: &LocalBindings) -> (alpns: Vec<Vec<u8>>)
    ensures
        exists|s: Seq<ServerAddr>|
            #[trigger] lists_servers(s, local_bindings@) && names(alpns@) == server_names(s),
{
    let servers: Vec<ServerAddr> = local_bindings.servers();
    let mut alpns: Vec<Vec<u8>> = Vec::new();
    let mut i: usize = 0;
    assert(names(alpns@) =~= server_names(servers@.take(0)));
    while i < servers.len()
        invariant
            i <= servers.len(),
            names(alpns@) == server_names(servers@.take(i as int)),
        decreases servers.len() - i,
    {
        let ghost before = alpns@;
        let app: AppAddr = servers[i].app();
        alpns.push(tcp_alpn(app));
        alpns.push(udp_alpn(app));
        proof {
            assert(servers@.take(i + 1).drop_last() =~= servers@.take(i as int));
            assert(names(alpns@) =~= names(before).push(stream_name(app)).push(datagram_name(app)));
        }
        i = i + 1;
    }
    proof {
        assert(servers@.take(i as int) =~= servers@);
        assert(lists_servers(servers@, local_bindings@));
    }
    alpns
}

/// The first of several texts.
fn first_text(texts: &Vec<String>) -> (first: Option<String>)
    ensures
        match first {
            Some(text) => texts@.len() > 0 && text@ == texts@[0]@,
            None => texts@.len() == 0,
        },
{
    if texts.len() == 0 {
        None
    } else {
        Some(texts[0].clone())
    }
}

impl NodeConfig {
    /// Sets up an endpoint by hand.
    pub fn new(
        secret_key: [u8; 32],
        relay_url: Option<String>,
        network_id: NetworkId,
        local_bindings: LocalBindings,
        allowed_clients: Vec<(EndpointId, ScopedVirtualAddr)>,
    ) -> (node: Self)
        ensures
            plain_node(node, secret_key, network_id, local_bindings@),
            node.relay_url == relay_url,
            match relay_url {
                Some(url) => authorize::texts(node.relay_urls@) == seq![url@],
                None => node.relay_urls@.len() == 0,
            },
            node.allowed_clients@ == allowed_clients@.to_set(),
            node.allowed_config_peers@.len() == 0,
    {
        let mut relay_urls: Vec<String> = Vec::new();
        match &relay_url {
            Some(url) => {
                relay_urls.push(url.clone());
                assert(authorize::texts(relay_urls@) =~= seq![url@]);
            },
            None => {},
        }
        let accept_alpns: Vec<Vec<u8>> = server_alpns(&local_bindings);
        NodeConfig {
            secret_key,
            relay_url,
            relay_urls,
            accept_alpns,
            network_id,
            local_bindings,
            allowed_clients: collect_client_authorizations(allowed_clients),
            enable_direct_paths: true,
            serves_config: false,
            allowed_config_peers: Vec::new(),
            serves_presence: false,
            allowed_presence_peers: Vec::new(),
        }
    }

    /// Sets up an endpoint as a configuration says.
    pub fn from_config(
        secret_key: [u8; 32],
        config: &ValidatedNetworkConfig,
        local_bindings: LocalBindings,
    ) -> (node: Result<Self, ConfigAuthorizationError>)
        ensures
            configured_node(config@, secret_key, local_bindings@, node),
    {
        let public: EndpointId = EndpointId(endpoint_public_key(&secret_key));
        proof {
            wire::lemma_array_of(public.0);
        }
        let derived: Result<ConfigAuthorizations, ConfigAuthorizationError> =
            ConfigAuthorizations::derive(config, public, &local_bindings);
        let ghost res = derived;
        assert(authorize::derives(config@, public, local_bindings@, res));
        let derived: ConfigAuthorizations = match derived {
            Ok(derived) => derived,
            Err(error) => return Err(error),
        };
        let relay_url: Option<String> = first_text(&derived.relay_urls);
        let accept_alpns: Vec<Vec<u8>> = server_alpns(&local_bindings);
        let node = NodeConfig {
            secret_key,
            relay_url,
            relay_urls: derived.relay_urls,
            accept_alpns,
            network_id: config.as_config().network_id,
            local_bindings,
            allowed_clients: derived.allowed_clients,
            enable_direct_paths: true,
            serves_config: false,
            allowed_config_peers: derived.member_endpoints,
            serves_presence: false,
            allowed_presence_peers: Vec::new(),
        };
        Ok(node)
    }

    /// Sets up an endpoint as a configuration says that serves one application.
    pub fn tcp_server_from_config(
        secret_key: [u8; 32],
        config: &ValidatedNetworkConfig,
        app: AppAddr,
    ) -> (node: Result<Self, ConfigAuthorizationError>)
        ensures
            configured_node(
                config@,
                secret_key,
                set![ScopedVirtualAddr::Server { app }],
                node,
            ),
    {
        Self::from_config(secret_key, config, sole_binding(LocalBinding::Server(ServerAddr::new(app))))
    }

    /// Sets up an endpoint as a configuration says that is a client of one application, at the
    /// first address that its member is given there.
    pub fn client_from_config(
        secret_key: [u8; 32],
        config: &ValidatedNetworkConfig,
        app: AppAddr,
    ) -> (node: Result<Self, ConfigAuthorizationError>)
        ensures
            match authorize::client_address(
                config@,
                EndpointId(wire::array_of(outside::endpoint_public(secret_key@))),
                app,
            ) {
                Err(reason) => node matches Err(error) && error == reason,
                Ok(address) => configured_node(
                    config@,
                    secret_key,
                    set![bindings::scoped_of(LocalBinding::Client(address))],
                    node,
                ),
            },
    {
        let public: EndpointId = EndpointId(endpoint_public_key(&secret_key));
        proof {
            wire::lemma_array_of(public.0);
        }
        match configured_client(config, public, app) {
            Err(error) => Err(error),
            Ok(address) => Self::from_config(
                secret_key,
                config,
                sole_binding(LocalBinding::Client(address)),
            ),
        }
    }

    /// Lets the endpoint serve configurations to these peers.
    pub fn with_config_update_source(self, allowed_peers: Vec<EndpointId>) -> (node: Self)
        ensures
            node == (NodeConfig {
                serves_config: true,
                allowed_config_peers: allowed_peers,
                ..self
            }),
    {
        let mut node: NodeConfig = self;
        node.serves_config = true;
        node.allowed_config_peers = allowed_peers;
        node
    }

    /// Lets the endpoint keep presence records for these peers.
    pub fn with_presence_store(self, allowed_peers: Vec<EndpointId>) -> (node: Self)
        ensures
            node == (NodeConfig {
                serves_presence: true,
                allowed_presence_peers: allowed_peers,
                ..self
            }),
    {
        let mut node: NodeConfig = self;
        node.serves_presence = true;
        node.allowed_presence_peers = allowed_peers;
        node
    }

    /// Uses these relays, each once and in order, the first of them by default.
    pub fn with_relay_urls(self, relay_urls: Vec<String>) -> (node: Self)
        ensures
            authorize::sorted_texts(node.relay_urls@, authorize::texts(relay_urls@)),
            match node.relay_url {
                Some(url) => node.relay_urls@.len() > 0 && url@ == node.relay_urls@[0]@,
                None => node.relay_urls@.len() == 0,
            },
            node == (NodeConfig {
                relay_url: node.relay_url,
                relay_urls: node.relay_urls,
                ..self
            }),
    {
        let mut node: NodeConfig = self;
        node.relay_urls = sort_texts(relay_urls);
        node.relay_url = first_text(&node.relay_urls);
        node
    }

    /// Whether the endpoint accepts connections at all.
    pub fn accepts_connections(&self) -> (accepts: bool)
        ensures
            accepts == (self.accept_alpns@.len() > 0 || self.serves_config || self.serves_presence),
    {
        self.accept_alpns.len() > 0 || self.serves_config || self.serves_presence
    }

    /// The names of all protocols that the endpoint accepts: those of its servers, and those of
    /// its network that it serves.
    pub fn served_alpns(&self) -> (alpns: Vec<Vec<u8>>)
        ensures
            names(alpns@) == names(self.accept_alpns@) + (if self.serves_config {
                seq![config_name(self.network_id)]
            } else {
                Seq::empty()
            }) + (if self.serves_presence {
                seq![presence_name(self.network_id)]
            } else {
                Seq::empty()
            }),
    {
        let mut alpns: Vec<Vec<u8>> = Vec::new();
        let ghost all = names(self.accept_alpns@);
        let mut i: usize = 0;
        while i < self.accept_alpns.len()
            invariant
                i <= self.accept_alpns.len(),
                all == names(self.accept_alpns@),
                alpns@.len() == i,
                forall|j: int| 0 <= j < i ==> (#[trigger] alpns@[j])@ == all[j],
            decreases self.accept_alpns.len() - i,
        {
            let copy: Vec<u8> = self.accept_alpns[i].clone();
            assert(copy@ =~= self.accept_alpns@[i as int]@);
            alpns.push(copy);
            i = i + 1;
        }
        assert(names(alpns@) =~= all);
        if self.serves_config {
            let ghost before = alpns@;
            alpns.push(config_sync_alpn(self.network_id));
            assert(names(alpns@) =~= names(before) + seq![config_name(self.network_id)]);
        }
        let ghost middle = all + if self.serves_config {
            seq![config_name(self.network_id)]
        } else {
            Seq::empty()
        };
        assert(names(alpns@) =~= middle);
        if self.serves_presence {
            let ghost before = alpns@;
            alpns.push(presence_alpn(self.network_id));
            assert(names(alpns@) =~= names(before) + seq![presence_name(self.network_id)]);
        } else {
            assert(middle =~= middle + Seq::<Seq<u8>>::empty());
        }
        alpns
    }
}

/// What someone who connects is after.
#[derive(Clone, Copy, Debug, PartialEq, Eq)]
pub enum Target {
    ConfigSync,
    Presence,
    Stream(ServerAddr),
    Datagrams(ServerAddr),
    Unknown,
}

/// Whether a protocol name asks for this, at an endpoint that holds these addresses.
pub open spec fn is_target(alpn: Seq<u8>, network: NetworkId, held: Set<ScopedVirtualAddr>, t: Target) -> bool {
    match t {
        Target::ConfigSync => alpn == config_name(network),
        Target::Presence => alpn == presence_name(network),
        Target::Stream(server) => alpn == stream_name(server.app) && held.contains(
            bindings::scoped_of(LocalBinding::Server(server)),
        ),
        Target::Datagrams(server) => alpn == datagram_name(server.app) && held.contains(
            bindings::scoped_of(LocalBinding::Server(server)),
        ),
        Target::Unknown => false,
    }
}

/// What a protocol name asks for, at an endpoint that holds these addresses.
pub open spec fn target_of(alpn: Seq<u8>, network: NetworkId, held: Set<ScopedVirtualAddr>, t: Target) -> bool {
    if t is Unknown {
        forall|other: Target| !#[trigger] is_target(alpn, network, held, other)
    } else {
        is_target(alpn, network, held, t)
    }
}

/// A protocol name asks for one thing at most.
pub proof fn law_target_is_unique(
    alpn: Seq<u8>,
    network: NetworkId,
    held: Set<ScopedVirtualAddr>,
    a: Target,
    b: Target,
)
    requires
        target_of(alpn, network, held, a),
        target_of(alpn, network, held, b),
    ensures
        a == b,
{
    let app_of = |t: Target|
        match t {
            Target::Stream(server) => server.app,
            Target::Datagrams(server) => server.app,
            _ => AppAddr(wire::array_of(network@)),
        };
    protocol::law_protocol_names_are_distinct(app_of(a), app_of(b), network, network);
    protocol::law_protocol_names_are_distinct(app_of(b), app_of(a), network, network);
    if a is Unknown && !(b is Unknown) {
        assert(is_target(alpn, network, held, b));
    }
    if b is Unknown && !(a is Unknown) {
        assert(is_target(alpn, network, held, a));
    }
}

/// Finds out what someone who connects is after.
pub fn classify_connection(alpn: &[u8], network_id: NetworkId, local_bindings: &LocalBindings) -> (target: Target)
    ensures
        target_of(alpn@, network_id, local_bindings@, target),
{
    let config: Vec<u8> = config_sync_alpn(network_id);
    if bytes_equal(alpn, config.as_slice()) {
        return Target::ConfigSync;
    }
    let presence: Vec<u8> = presence_alpn(network_id);
    if bytes_equal(alpn, presence.as_slice()) {
        return Target::Presence;
    }
    let servers: Vec<ServerAddr> = local_bindings.servers();
    let mut i: usize = 0;
    while i < servers.len()
        invariant
            i <= servers.len(),
            alpn@ != config_name(network_id),
            alpn@ != presence_name(network_id),
            lists_servers(servers@, local_bindings@),
            forall|j: int|
                0 <= j < i ==> alpn@ != stream_name((#[trigger] servers@[j]).app) && alpn@
                    != datagram_name(servers@[j].app),
        decreases servers.len() - i,
    {
        let server: ServerAddr = servers[i];
        assert(servers@.contains(server));
        let stream: Vec<u8> = tcp_alpn(server.app());
        if bytes_equal(alpn, stream.as_slice()) {
            return Target::Stream(server);
        }
        let datagrams: Vec<u8> = udp_alpn(server.app());
        if bytes_equal(alpn, datagrams.as_slice()) {
            return Target::Datagrams(server);
        }
        i = i + 1;
    }
    proof {
        assert forall|other: Target| !#[trigger] is_target(
            alpn@,
            network_id,
            local_bindings@,
            other,
        ) by {
            match other {
                Target::Stream(server) => {
                    if local_bindings@.contains(bindings::scoped_of(LocalBinding::Server(server))) {
                        assert(servers@.contains(server));
                        let j = choose|j: int| 0 <= j < servers@.len() && servers@[j] == server;
                        assert(alpn@ != stream_name(servers@[j].app));
                    }
                },
                Target::Datagrams(server) => {
                    if local_bindings@.contains(bindings::scoped_of(LocalBinding::Server(server))) {
                        assert(servers@.contains(server));
                        let j = choose|j: int| 0 <= j < servers@.len() && servers@[j] == server;
                        assert(alpn@ != datagram_name(servers@[j].app));
                    }
                },
                _ => {},
            }
        }
    }
    Target::Unknown
}

/// Whether someone who connects is let in, or why not. `enabled` tells whether this endpoint
/// serves the protocol of its network that is asked for, `allowed` whether the peer may use what
/// it is after.
pub open spec fn admission(target: Target, enabled: bool, allowed: bool) -> Result<(), &'static str> {
    match target {
        Target::ConfigSync => if !enabled {
            Err("config sync disabled")
        } else if !allowed {
            Err("config peer not allowed")
        } else {
            Ok(())
        },
        Target::Presence => if !enabled {
            Err("presence disabled")
        } else if !allowed {
            Err("presence peer not allowed")
        } else {
            Ok(())
        },
        Target::Unknown => Err("unknown application binding"),
        _ => if !allowed {
            Err("endpoint not allowed")
        } else {
            Ok(())
        },
    }
}

/// Decides whether someone who connects is let in.
pub fn check_admission(target: Target, enabled: bool, allowed: bool) -> (admitted: Result<(), &'static str>)
    ensures
        admitted == admission(target, enabled, allowed),
{
    match target {
        Target::ConfigSync => if !enabled {
            Err("config sync disabled")
        } else if !allowed {
            Err("config peer not allowed")
        } else {
            Ok(())
        },
        Target::Presence => if !enabled {
            Err("presence disabled")
        } else if !allowed {
            Err("presence peer not allowed")
        } else {
            Ok(())
        },
        Target::Unknown => Err("unknown application binding"),
        _ => if !allowed {
            Err("endpoint not allowed")
        } else {
            Ok(())
        },
    }
}

/// Nobody is let in who is not allowed to use what it is after.
pub proof fn law_admission_needs_permission(target: Target, enabled: bool, allowed: bool)
    ensures
        admission(target, enabled, allowed) is Ok ==> allowed && target != Target::Unknown,
{
}

/// Whether a connection may be opened: from an address that this endpoint holds as a client, to
/// an endpoint of the same network.
pub open spec fn dial_verdict(
    held: Set<ScopedVirtualAddr>,
    network: NetworkId,
    source: ClientAddr,
    target: NetworkId,
) -> Result<(), NetworkError> {
    if !held.contains(bindings::scoped_of(LocalBinding::Client(source))) {
        Err(NetworkError::ClientNotBound(source))
    } else if target != network {
        Err(NetworkError::NetworkMismatch { local: network, target })
    } else {
        Ok(())
    }
}

/// Checks that a connection may be opened.
pub fn check_dial(
    local_bindings: &LocalBindings,
    network_id: NetworkId,
    source: ClientAddr,
    target_network: NetworkId,
) -> (checked: Result<(), NetworkError>)
    ensures
        checked == dial_verdict(local_bindings@, network_id, source, target_network),
{
    if !local_bindings.contains_client(source) {
        return Err(NetworkError::ClientNotBound(source));
    }
    check_network(network_id, target_network)
}

/// Checks that a target belongs to the network of this endpoint.
pub fn check_network(network_id: NetworkId, target_network: NetworkId) -> (checked: Result<
    (),
    NetworkError,
>)
    ensures
        checked == (if target_network != network_id {
            Err(NetworkError::NetworkMismatch { local: network_id, target: target_network })
        } else {
            Ok::<(), NetworkError>(())
        }),
{
    if target_network != network_id {
        return Err(
            NetworkError::NetworkMismatch { local: network_id, target: target_network },
        );
    }
    Ok(())
}

/// What keeps a connection from being used: that who answered is not who was called. `violation`
/// tells what was called.
pub fn check_identity(answered: EndpointId, called: EndpointId, violation: &'static str) -> (checked: Result<
    (),
    NetworkError,
>)
    ensures
        checked == (if answered != called {
            Err(NetworkError::ProtocolViolation(violation))
        } else {
            Ok::<(), NetworkError>(())
        }),
{
    if answered != called {
        return Err(NetworkError::ProtocolViolation(violation));
    }
    Ok(())
}

/// Which of the listeners of an endpoint's servers have been handed out.
pub struct Listeners {
    waiting: Vec<(ServerAddr, bool)>,
}

impl View for Listeners {
    type V = Map<ServerAddr, bool>;

    /// For each server, whether its listener is still there.
    closed spec fn view(&self) -> Map<ServerAddr, bool> {
        Map::new(
            |s: ServerAddr| exists|i: int| 0 <= i < self.waiting@.len() && #[trigger] self.waiting@[i].0 == s,
            |s: ServerAddr|
                self.waiting@[choose|i: int| 0 <= i < self.waiting@.len() && #[trigger] self.waiting@[i].0 == s].1,
        )
    }
}

spec fn distinct(s: Seq<(ServerAddr, bool)>) -> bool {
    forall|i: int, j: int| 0 <= i < j < s.len() ==> (#[trigger] s[i]).0 != (#[trigger] s[j]).0
}

/// What comes of taking the listener of a server.
pub open spec fn take_verdict(m: Map<ServerAddr, bool>, server: ServerAddr) -> Result<(), NetworkError> {
    if !m.dom().contains(server) {
        Err(NetworkError::ServerNotBound(server))
    } else if !m[server] {
        Err(NetworkError::ListenerAlreadyTaken(server))
    } else {
        Ok(())
    }
}

impl Listeners {
    #[verifier::type_invariant]
    spec fn well_formed(self) -> bool {
        distinct(self.waiting@)
    }

    /// One listener for each server that an endpoint holds.
    pub fn new(local_bindings: &LocalBindings) -> (listeners: Self)
        ensures
            forall|s: ServerAddr| #[trigger]
                listeners@.dom().contains(s) <==> local_bindings@.contains(
                    bindings::scoped_of(LocalBinding::Server(s)),
                ),
            forall|s: ServerAddr| listeners@.dom().contains(s) ==> #[trigger] listeners@[s],
    {
        let servers: Vec<ServerAddr> = local_bindings.servers();
        let mut waiting: Vec<(ServerAddr, bool)> = Vec::new();
        let mut i: usize = 0;
        while i < servers.len()
            invariant
                i <= servers.len(),
                servers@.no_duplicates(),
                waiting@.len() == i,
                forall|j: int| 0 <= j < i ==> #[trigger] waiting@[j] == (servers@[j], true),
            decreases servers.len() - i,
        {
            waiting.push((servers[i], true));
            i = i + 1;
        }
        let listeners = Listeners { waiting };
        proof {
            assert forall|s: ServerAddr| #[trigger]
                listeners@.dom().contains(s) <==> local_bindings@.contains(
                    bindings::scoped_of(LocalBinding::Server(s)),
                ) by {
                if listeners@.dom().contains(s) {
                    let j = choose|j: int| 0 <= j < waiting@.len() && #[trigger] waiting@[j].0 == s;
                    assert(servers@[j] == s);
                    assert(servers@.contains(s));
                }
                if servers@.contains(s) {
                    let j = choose|j: int| 0 <= j < servers@.len() && servers@[j] == s;
                    assert(waiting@[j].0 == s);
                }
            }
        }
        listeners
    }

    /// Takes the listener of a server, which can be done once.
    pub fn take(&mut self, server: ServerAddr) -> (taken: Result<(), NetworkError>)
        ensures
            taken == take_verdict(old(self)@, server),
            final(self)@ == (if taken is Ok {
                old(self)@.insert(server, false)
            } else {
                old(self)@
            }),
    {
        proof {
            use_type_invariant(&*self);
        }
        let mut i: usize = 0;
        while i < self.waiting.len()
            invariant
                i <= self.waiting.len(),
                distinct(self.waiting@),
                *self == *old(self),
                forall|j: int| 0 <= j < i ==> (#[trigger] self.waiting@[j]).0 != server,
            decreases self.waiting.len() - i,
        {
            if self.waiting[i].0 == server {
                let ghost s = self.waiting@;
                assert(s[i as int].0 == server);
                proof {
                    lemma_listener_at(*self, i as int);
                }
                if !self.waiting[i].1 {
                    return Err(NetworkError::ListenerAlreadyTaken(server));
                }
                let mut waiting: Vec<(ServerAddr, bool)> = Vec::new();
                std::mem::swap(&mut waiting, &mut self.waiting);
                waiting.set(i, (server, false));
                proof {
                    let t = waiting@;
                    assert forall|a: int, b: int| 0 <= a < b < t.len() implies (#[trigger] t[a]).0
                        != (#[trigger] t[b]).0 by {
                        assert(s[a].0 != s[b].0);
                    }
                }
                self.waiting = waiting;
                proof {
                    lemma_listener_replaced(*old(self), *self, i as int, server);
                }
                return Ok(());
            }
            i = i + 1;
        }
        Err(NetworkError::ServerNotBound(server))
    }
}

proof fn lemma_listener_at(l: Listeners, i: int)
    requires
        distinct(l.waiting@),
        0 <= i < l.waiting@.len(),
    ensures
        l@.dom().contains(l.waiting@[i].0),
        l@[l.waiting@[i].0] == l.waiting@[i].1,
{
    let s = l.waiting@;
    let server = s[i].0;
    let j = choose|j: int| 0 <= j < s.len() && #[trigger] s[j].0 == server;
    assert(s[i].0 == server);
    if j < i {
        assert(s[j].0 != s[i].0);
    } else if i < j {
        assert(s[i].0 != s[j].0);
    }
}

proof fn lemma_listener_replaced(a: Listeners, b: Listeners, i: int, server: ServerAddr)
    requires
        distinct(a.waiting@),
        distinct(b.waiting@),
        0 <= i < a.waiting@.len(),
        a.waiting@[i].0 == server,
        b.waiting@ == a.waiting@.update(i, (server, false)),
    ensures
        b@ == a@.insert(server, false),
{
    let s = a.waiting@;
    let t = b.waiting@;
    assert(t[i].0 == server);
    lemma_listener_at(b, i);
    assert forall|q: ServerAddr| #[trigger] b@.dom().contains(q) <==> a@.insert(
        server,
        false,
    ).dom().contains(q) by {
        if b@.dom().contains(q) {
            let j = choose|j: int| 0 <= j < t.len() && #[trigger] t[j].0 == q;
            assert(s[j].0 == q);
        }
        if a@.dom().contains(q) {
            let j = choose|j: int| 0 <= j < s.len() && #[trigger] s[j].0 == q;
            assert(t[j].0 == q);
        }
    }
    assert forall|q: ServerAddr| #[trigger] b@.dom().contains(q) implies b@[q] == a@.insert(
        server,
        false,
    )[q] by {
        if q != server {
            let j = choose|j: int| 0 <= j < t.len() && #[trigger] t[j].0 == q;
            assert(s[j].0 == q);
            assert(t[j] == s[j]);
            lemma_listener_at(b, j);
            lemma_listener_at(a, j);
        }
    }
    assert(b@ =~= a@.insert(server, false));
}

/// A listener can be taken once: after it was taken it is refused as taken already, and the
/// listeners of other servers are as they were.
pub proof fn law_listener_is_taken_once(m: Map<ServerAddr, bool>, server: ServerAddr, other: ServerAddr)
    requires
        take_verdict(m, server) is Ok,
    ensures
        take_verdict(m.insert(server, false), server) == Err::<(), NetworkError>(
            NetworkError::ListenerAlreadyTaken(server),
        ),
        other != server ==> take_verdict(m.insert(server, false), other) == take_verdict(m, other),
{
}

/// Why a datagram was not sent.
#[derive(Clone, Copy, Debug, PartialEq, Eq, Structural)]
pub enum DatagramError {
    Unsupported,
    TooLong { len: usize, maximum: usize },
    WouldBlock,
    DifferentPeer,
}

/// Whether a datagram can be sent: the peer takes datagrams, and ones as long as this.
pub open spec fn datagram_verdict(len: usize, maximum: Option<usize>) -> Result<(), DatagramError> {
    match maximum {
        None => Err(DatagramError::Unsupported),
        Some(maximum) => if len > maximum {
            Err(DatagramError::TooLong { len, maximum })
        } else {
            Ok(())
        },
    }
}

/// Checks that a datagram can be sent, where sending may wait.
pub fn check_datagram(len: usize, maximum: Option<usize>) -> (checked: Result<(), DatagramError>)
    ensures
        checked == datagram_verdict(len, maximum),
{
    match maximum {
        None => Err(DatagramError::Unsupported),
        Some(maximum) => if len > maximum {
            Err(DatagramError::TooLong { len, maximum })
        } else {
            Ok(())
        },
    }
}

/// Checks that a datagram can be sent at once: `space` is the room in the send buffer.
pub fn check_datagram_now(len: usize, maximum: Option<usize>, space: usize) -> (checked: Result<
    (),
    DatagramError,
>)
    ensures
        checked == (match datagram_verdict(len, maximum) {
            Err(e) => Err(e),
            Ok(()) => if space < len {
                Err(DatagramError::WouldBlock)
            } else {
                Ok::<(), DatagramError>(())
            },
        }),
{
    check_datagram(len, maximum)?;
    if space < len {
        return Err(DatagramError::WouldBlock);
    }
    Ok(())
}

/// Checks that a datagram goes to the peer of its socket.
pub fn check_datagram_peer(target: ScopedVirtualAddr, peer: ScopedVirtualAddr) -> (checked: Result<
    (),
    DatagramError,
>)
    ensures
        checked == (if target != peer {
            Err(DatagramError::DifferentPeer)
        } else {
            Ok::<(), DatagramError>(())
        }),
{
    if target != peer {
        return Err(DatagramError::DifferentPeer);
    }
    Ok(())
}

} // verus!
