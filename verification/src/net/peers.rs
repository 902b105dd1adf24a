//! Where the endpoints of a network are expected to be.
use crate::config::snapshot;
use crate::config::snapshot::{
    Config, NetworkConfigV1, PresenceServiceDescriptor, Relay, RelayDescriptor,
    RelayRoles,
};
use crate::config::validate::ValidatedNetworkConfig;
use crate::crypto::endpoint;
use crate::crypto::endpoint::EndpointBinding;
use crate::crypto::keys::CertificateError;
use crate::discovery::address::SocketAddress;
use crate::discovery::cache;
use crate::discovery::directory::PresenceDirectory;
use crate::discovery::lan;
use crate::discovery::lan::read_bound_endpoints;
use crate::discovery::presence;
use crate::discovery::presence::{Candidate, DiscoveryCandidate, DiscoveryError};
use crate::identifiers::{AppAddr, EndpointId, NetworkId, ScopedVirtualAddr};
use crate::net::protocol::NetworkError;
use crate::order;
use crate::order::{sorted_distinct, Keyed};
use crate::outside;
use crate::outside::{endpoint_id_ok, parse_relay_url};
use crate::wire;
use crate::text::joined;
use vstd::prelude::*;

verus! {

/// Why a configuration does not say what an endpoint needs of it.
#[derive(Clone, Copy, Debug, PartialEq, Eq)]
pub enum ConfigAuthorizationError {
    Credential(CertificateError),
    MalformedEndpoint,
    MalformedRelayUrl,
    WrongNetwork,
    NoPresenceService,
    LocalEndpointNotMember,
    ServerNotAuthorized,
    ClientNotAuthorized,
}

impl ConfigAuthorizationError {
    /// The message for people.
    pub open spec fn text(self) -> Seq<char> {
        match self {
            ConfigAuthorizationError::Credential(error) => {
                "credential bytes in validated configuration are malformed: "@ + error.text()
            },
            ConfigAuthorizationError::MalformedEndpoint => "configured endpoint ID is malformed"@,
            ConfigAuthorizationError::MalformedRelayUrl => "configured relay URL is malformed"@,
            ConfigAuthorizationError::WrongNetwork => {
                "live authorization update belongs to another virtual network"@
            },
            ConfigAuthorizationError::NoPresenceService => {
                "validated network configuration contains no presence service"@
            },
            ConfigAuthorizationError::LocalEndpointNotMember => {
                "local endpoint has no signed binding in this network"@
            },
            ConfigAuthorizationError::ServerNotAuthorized => {
                "local endpoint is not authorized as this application server"@
            },
            ConfigAuthorizationError::ClientNotAuthorized => {
                "local endpoint is not authorized as this application client"@
            },
        }
    }

    /// The message for people.
    pub fn message(&self) -> (text: String)
        ensures
            text@ == self.text(),
    {
        match self {
            ConfigAuthorizationError::Credential(error) => {
                joined("credential bytes in validated configuration are malformed: ", error.message())
            },
            ConfigAuthorizationError::MalformedEndpoint => {
                "configured endpoint ID is malformed".to_owned()
            },
            ConfigAuthorizationError::MalformedRelayUrl => {
                "configured relay URL is malformed".to_owned()
            },
            ConfigAuthorizationError::WrongNetwork => {
                "live authorization update belongs to another virtual network".to_owned()
            },
            ConfigAuthorizationError::NoPresenceService => {
                "validated network configuration contains no presence service".to_owned()
            },
            ConfigAuthorizationError::LocalEndpointNotMember => {
                "local endpoint has no signed binding in this network".to_owned()
            },
            ConfigAuthorizationError::ServerNotAuthorized => {
                "local endpoint is not authorized as this application server".to_owned()
            },
            ConfigAuthorizationError::ClientNotAuthorized => {
                "local endpoint is not authorized as this application client".to_owned()
            },
        }
    }
}

/// Where an application's endpoint is expected to be.
#[derive(Debug)]
pub struct PeerDescriptor {
    pub network_id: NetworkId,
    pub app_addr: AppAddr,
    pub endpoint_id: EndpointId,
    pub relay_url: Option<String>,
    pub direct_addresses: Vec<SocketAddress>,
}

/// Where an endpoint is expected to be that looks after its network.
#[derive(Debug)]
pub struct ConfigPeerDescriptor {
    pub network_id: NetworkId,
    pub endpoint_id: EndpointId,
    pub relay_url: Option<String>,
    pub direct_addresses: Vec<SocketAddress>,
}

/// The contents of a descriptor of an application's endpoint.
pub struct Peer {
    pub network_id: NetworkId,
    pub app_addr: AppAddr,
    pub endpoint_id: EndpointId,
    pub relay_url: Option<Seq<char>>,
    pub direct_addresses: Seq<SocketAddress>,
}

/// The contents of a descriptor of an endpoint.
pub struct ConfigPeer {
    pub network_id: NetworkId,
    pub endpoint_id: EndpointId,
    pub relay_url: Option<Seq<char>>,
    pub direct_addresses: Seq<SocketAddress>,
}

/// The characters of an optional text.
pub open spec fn text_view(text: Option<String>) -> Option<Seq<char>> {
    match text {
        Some(text) => Some(text@),
        None => None,
    }
}

impl View for PeerDescriptor {
    type V = Peer;

    open spec fn view(&self) -> Peer {
        Peer {
            network_id: self.network_id,
            app_addr: self.app_addr,
            endpoint_id: self.endpoint_id,
            relay_url: text_view(self.relay_url),
            direct_addresses: self.direct_addresses@,
        }
    }
}

impl View for ConfigPeerDescriptor {
    type V = ConfigPeer;

    open spec fn view(&self) -> ConfigPeer {
        ConfigPeer {
            network_id: self.network_id,
            endpoint_id: self.endpoint_id,
            relay_url: text_view(self.relay_url),
            direct_addresses: self.direct_addresses@,
        }
    }
}

/// The contents of each of several descriptors.
pub open spec fn peer_views(s: Seq<ConfigPeerDescriptor>) -> Seq<ConfigPeer> {
    Seq::new(s.len(), |i: int| s[i]@)
}

/// The endpoints of descriptors.
pub open spec fn peer_ids(s: Seq<ConfigPeer>) -> Seq<EndpointId> {
    Seq::new(s.len(), |i: int| s[i].endpoint_id)
}

/// The ways to reach an endpoint: its direct addresses, and its relay last.
pub open spec fn transports(direct: Seq<SocketAddress>, relay: Option<Seq<char>>) -> Seq<Candidate> {
    let ips = Seq::new(direct.len(), |i: int| Candidate::Ip(direct[i]));
    match relay {
        Some(url) => ips.push(Candidate::Relay(url)),
        None => ips,
    }
}

fn copy_text(text: &Option<String>) -> (copy: Option<String>)
    ensures
        text_view(copy) == text_view(*text),
{
    match text {
        Some(text) => Some(text.clone()),
        None => None,
    }
}

fn ways(direct: &Vec<SocketAddress>, relay: &Option<String>) -> (ways: Vec<DiscoveryCandidate>)
    ensures
        presence::candidate_views(ways@) == transports(direct@, text_view(*relay)),
{
    let mut ways: Vec<DiscoveryCandidate> = Vec::new();
    let mut i: usize = 0;
    while i < direct.len()
        invariant
            i <= direct.len(),
            ways@.len() == i,
            forall|j: int| 0 <= j < i ==> (#[trigger] ways@[j])@ == Candidate::Ip(direct@[j]),
        decreases direct.len() - i,
    {
        ways.push(DiscoveryCandidate::Ip(direct[i]));
        i = i + 1;
    }
    match relay {
        Some(url) => {
            ways.push(DiscoveryCandidate::Relay(url.clone()));
        },
        None => {},
    }
    assert(presence::candidate_views(ways@) =~= transports(direct@, text_view(*relay)));
    ways
}

impl Clone for ConfigPeerDescriptor {
    fn clone(&self) -> (copy: Self)
        ensures
            copy@ == self@,
    {
        let direct_addresses: Vec<SocketAddress> = self.direct_addresses.clone();
        assert(direct_addresses@ =~= self.direct_addresses@);
        ConfigPeerDescriptor {
            network_id: self.network_id,
            endpoint_id: self.endpoint_id,
            relay_url: copy_text(&self.relay_url),
            direct_addresses,
        }
    }
}

impl Clone for PeerDescriptor {
    fn clone(&self) -> (copy: Self)
        ensures
            copy@ == self@,
    {
        let direct_addresses: Vec<SocketAddress> = self.direct_addresses.clone();
        assert(direct_addresses@ =~= self.direct_addresses@);
        PeerDescriptor {
            network_id: self.network_id,
            app_addr: self.app_addr,
            endpoint_id: self.endpoint_id,
            relay_url: copy_text(&self.relay_url),
            direct_addresses,
        }
    }
}

impl PeerDescriptor {
    /// The endpoint and the ways to reach it.
    pub fn endpoint_addr(&self) -> (addr: (EndpointId, Vec<DiscoveryCandidate>))
        ensures
            addr.0 == self@.endpoint_id,
            presence::candidate_views(addr.1@) == transports(
                self@.direct_addresses,
                self@.relay_url,
            ),
    {
        (self.endpoint_id, ways(&self.direct_addresses, &self.relay_url))
    }

    /// The same without direct addresses.
    pub fn relay_only(&self) -> (peer: Self)
        ensures
            peer@ == (Peer { direct_addresses: Seq::empty(), ..self@ }),
    {
        let peer = PeerDescriptor {
            network_id: self.network_id,
            app_addr: self.app_addr,
            endpoint_id: self.endpoint_id,
            relay_url: copy_text(&self.relay_url),
            direct_addresses: Vec::new(),
        };
        assert(peer@.direct_addresses =~= Seq::<SocketAddress>::empty());
        peer
    }
}

/// The service that a configuration names first, as an endpoint to ask.
pub open spec fn first_service(c: Config) -> Result<ConfigPeer, ConfigAuthorizationError> {
    if c.presence_services.len() == 0 {
        Err(ConfigAuthorizationError::NoPresenceService)
    } else if !outside::endpoint_key_ok(c.presence_services[0].endpoint_id@) {
        Err(ConfigAuthorizationError::MalformedEndpoint)
    } else {
        match outside::relay_url_canonical(c.presence_services[0].url) {
            None => Err(ConfigAuthorizationError::MalformedRelayUrl),
            Some(url) => Ok(
                ConfigPeer {
                    network_id: c.network_id,
                    endpoint_id: EndpointId(c.presence_services[0].endpoint_id),
                    relay_url: Some(url),
                    direct_addresses: Seq::empty(),
                },
            ),
        }
    }
}

impl ConfigPeerDescriptor {
    /// The endpoint and the ways to reach it.
    pub fn endpoint_addr(&self) -> (addr: (EndpointId, Vec<DiscoveryCandidate>))
        ensures
            addr.0 == self@.endpoint_id,
            presence::candidate_views(addr.1@) == transports(
                self@.direct_addresses,
                self@.relay_url,
            ),
    {
        (self.endpoint_id, ways(&self.direct_addresses, &self.relay_url))
    }

    /// The service that a configuration names first, as an endpoint to ask.
    pub fn first_presence_service(config: &ValidatedNetworkConfig) -> (peer: Result<
        Self,
        ConfigAuthorizationError,
    >)
        ensures
            match first_service(config@) {
                Ok(value) => peer matches Ok(peer) && peer@ == value,
                Err(reason) => peer matches Err(error) && error == reason,
            },
    {
        let inner: &NetworkConfigV1 = config.as_config();
        if inner.presence_services.len() == 0 {
            return Err(ConfigAuthorizationError::NoPresenceService);
        }
        let service: &PresenceServiceDescriptor = &inner.presence_services[0];
        assert(config@.presence_services[0] == service@);
        if !endpoint_id_ok(&service.endpoint_id) {
            return Err(ConfigAuthorizationError::MalformedEndpoint);
        }
        let url: String = match parse_relay_url(service.url.as_str()) {
            Some(url) => url,
            None => return Err(ConfigAuthorizationError::MalformedRelayUrl),
        };
        let peer = ConfigPeerDescriptor {
            network_id: inner.network_id,
            endpoint_id: EndpointId(service.endpoint_id),
            relay_url: Some(url),
            direct_addresses: Vec::new(),
        };
        assert(peer@.direct_addresses =~= Seq::<SocketAddress>::empty());
        Ok(peer)
    }
}

/// The presence service to ask: that of the current configuration, or else the one known before.
pub fn current_presence_target(fallback: &ConfigPeerDescriptor, config: &ValidatedNetworkConfig) -> (target: ConfigPeerDescriptor)
    ensures
        target@ == (match first_service(config@) {
            Ok(service) => service,
            Err(_) => fallback@,
        }),
{
    match ConfigPeerDescriptor::first_presence_service(config) {
        Ok(target) => target,
        Err(_) => fallback.clone(),
    }
}

/// Whether a relay carries application data.
pub open spec fn relays_data(r: Relay) -> bool {
    r.roles.0 & 1 == 1
}

/// The relay through which members are reached: the first that carries application data, if its
/// URL is one.
pub open spec fn data_relay(relays: Seq<Relay>) -> Option<Seq<char>>
    decreases relays.len(),
{
    if relays.len() == 0 {
        None
    } else if relays_data(relays[0]) {
        outside::relay_url_canonical(relays[0].url)
    } else {
        data_relay(relays.skip(1))
    }
}

fn first_data_relay(relays: &Vec<RelayDescriptor>) -> (url: Option<String>)
    ensures
        text_view(url) == data_relay(snapshot::relays(relays@)),
{
    let ghost all = snapshot::relays(relays@);
    let mut i: usize = 0;
    assert(all.skip(0) =~= all);
    while i < relays.len()
        invariant
            i <= relays.len(),
            all == snapshot::relays(relays@),
            data_relay(snapshot::relays(relays@)) == data_relay(all.skip(i as int)),
        decreases relays.len() - i,
    {
        proof {
            assert(all.skip(i as int)[0] == relays@[i as int]@);
            assert(all.skip(i as int).skip(1) =~= all.skip(i + 1));
        }
        if relays[i].roles.contains(RelayRoles::data_relay()) {
            return parse_relay_url(relays[i].url.as_str());
        }
        i = i + 1;
    }
    None
}

/// Whether a binding can be read and names this endpoint.
pub open spec fn names_endpoint(raw: Seq<u8>, endpoint: EndpointId) -> bool {
    endpoint::read_signed_endpoint(raw) matches Some(b) && b.payload.endpoint_id == endpoint.0
        && outside::endpoint_key_ok(endpoint@)
}

/// Whether some binding can be read and names this endpoint.
pub open spec fn named_endpoint(raw: Seq<Seq<u8>>, endpoint: EndpointId) -> bool {
    exists|i: int| 0 <= i < raw.len() && names_endpoint(#[trigger] raw[i], endpoint)
}

fn named_endpoints(raw: &Vec<Vec<u8>>, local_endpoint: EndpointId) -> (endpoints: Vec<EndpointId>)
    ensures
        forall|e: EndpointId| #[trigger]
            endpoints@.contains(e) <==> named_endpoint(snapshot::blobs(raw@), e) && e
                != local_endpoint,
{
    let ghost all = snapshot::blobs(raw@);
    let mut endpoints: Vec<EndpointId> = Vec::new();
    let mut i: usize = 0;
    while i < raw.len()
        invariant
            i <= raw.len(),
            all == snapshot::blobs(raw@),
            forall|e: EndpointId| #[trigger]
                endpoints@.contains(e) <==> named_endpoint(all.take(i as int), e) && e
                    != local_endpoint,
        decreases raw.len() - i,
    {
        let ghost before = endpoints@;
        assert(all[i as int] == raw@[i as int]@);
        proof {
            assert forall|e: EndpointId| #[trigger]
                named_endpoint(all.take(i + 1), e) <==> named_endpoint(all.take(i as int), e)
                    || names_endpoint(all[i as int], e) by {
                lemma_named_after(all, i as int, e);
            }
        }
        match EndpointBinding::from_bytes(raw[i].as_slice()) {
            Ok(binding) => {
                let id: EndpointId = EndpointId(binding.payload().endpoint_id);
                if endpoint_id_ok(&id.0) {
                    if id != local_endpoint {
                        endpoints.push(id);
                        proof {
                            assert forall|e: EndpointId| #[trigger]
                                endpoints@.contains(e) <==> before.contains(e) || e == id by {
                                vstd::seq_lib::lemma_seq_contains_after_push(before, id, e);
                            }
                        }
                    }
                }
            },
            Err(_) => {},
        }
        i = i + 1;
    }
    assert(all.take(i as int) =~= all);
    endpoints
}

proof fn lemma_named_after(all: Seq<Seq<u8>>, i: int, e: EndpointId)
    requires
        0 <= i < all.len(),
    ensures
        named_endpoint(all.take(i + 1), e) <==> named_endpoint(all.take(i), e) || names_endpoint(
            all[i],
            e,
        ),
{
    if named_endpoint(all.take(i + 1), e) {
        let j = choose|j: int|
            0 <= j < all.take(i + 1).len() && names_endpoint(#[trigger] all.take(i + 1)[j], e);
        if j < i {
            assert(all.take(i)[j] == all.take(i + 1)[j]);
        }
    }
    if named_endpoint(all.take(i), e) {
        let j = choose|j: int|
            0 <= j < all.take(i).len() && names_endpoint(#[trigger] all.take(i)[j], e);
        assert(all.take(i + 1)[j] == all.take(i)[j]);
    }
    if names_endpoint(all[i], e) {
        assert(all.take(i + 1)[i] == all[i]);
    }
}

/// A sorted list holds the same endpoints as what it was sorted from.
proof fn lemma_sorted_endpoints(sorted: Seq<EndpointId>, items: Seq<EndpointId>)
    requires
        order::sorted_from(sorted, items),
    ensures
        forall|e: EndpointId| #[trigger] sorted.contains(e) <==> items.contains(e),
{
    assert forall|e: EndpointId| #[trigger] sorted.contains(e) <==> items.contains(e) by {
        if sorted.contains(e) {
            let i = choose|i: int| 0 <= i < sorted.len() && sorted[i] == e;
            assert(items.contains(sorted[i]));
        }
        if items.contains(e) {
            let i = choose|i: int| 0 <= i < items.len() && items[i] == e;
            assert(order::has_key(sorted, items[i].key()));
            let j = choose|j: int|
                0 <= j < sorted.len() && (#[trigger] sorted[j]).key() == items[i].key();
            wire::lemma_array_ext(sorted[j].0, e.0);
            assert(sorted[j] == e);
        }
    }
}

/// The endpoints to which a configuration can be passed on: those of all readable bindings but
/// this endpoint's own, each once, in the order of their bytes.
pub fn config_peer_descriptors(config: &ValidatedNetworkConfig, local_endpoint: EndpointId) -> (peers: Vec<
    ConfigPeerDescriptor,
>)
    ensures
        order::strictly_sorted(peer_ids(peer_views(peers@))),
        forall|e: EndpointId| #[trigger]
            peer_ids(peer_views(peers@)).contains(e) <==> named_endpoint(
                config@.endpoint_bindings,
                e,
            ) && e != local_endpoint,
        forall|i: int|
            0 <= i < peers@.len() ==> (#[trigger] peers@[i])@ == (ConfigPeer {
                network_id: config@.network_id,
                endpoint_id: peers@[i].endpoint_id,
                relay_url: data_relay(config@.relays),
                direct_addresses: Seq::empty(),
            }),
{
    let inner: &NetworkConfigV1 = config.as_config();
    let relay_url: Option<String> = first_data_relay(&inner.relays);
    let found: Vec<EndpointId> = named_endpoints(&inner.endpoint_bindings, local_endpoint);
    let ghost items = found@;
    let sorted: Vec<EndpointId> = sorted_distinct(found);
    proof {
        lemma_sorted_endpoints(sorted@, items);
    }
    let mut peers: Vec<ConfigPeerDescriptor> = Vec::new();
    let mut i: usize = 0;
    while i < sorted.len()
        invariant
            i <= sorted.len(),
            peers@.len() == i,
            inner@ == config@,
            text_view(relay_url) == data_relay(config@.relays),
            forall|j: int|
                0 <= j < i ==> (#[trigger] peers@[j])@ == (ConfigPeer {
                    network_id: config@.network_id,
                    endpoint_id: sorted@[j],
                    relay_url: data_relay(config@.relays),
                    direct_addresses: Seq::empty(),
                }),
        decreases sorted.len() - i,
    {
        let peer = ConfigPeerDescriptor {
            network_id: inner.network_id,
            endpoint_id: sorted[i],
            relay_url: copy_text(&relay_url),
            direct_addresses: Vec::new(),
        };
        assert(peer@.direct_addresses =~= Seq::<SocketAddress>::empty());
        peers.push(peer);
        i = i + 1;
    }
    assert(peer_ids(peer_views(peers@)) =~= sorted@);
    peers
}

/// The endpoints whose presence is to be asked for: those of all bindings but this endpoint's
/// own, each once, in the order of their bytes; or, in words, why they cannot be told.
pub fn presence_endpoints(config: &ValidatedNetworkConfig, local_endpoint: EndpointId) -> (endpoints: Result<
    Vec<EndpointId>,
    String,
>)
    ensures
        match lan::bound_endpoints(config@.endpoint_bindings) {
            Ok(all) => endpoints matches Ok(endpoints) && order::strictly_sorted(endpoints@) && forall|
                e: EndpointId,
            | #[trigger]
                endpoints@.contains(e) <==> all.contains(e) && e != local_endpoint,
            Err(reason) => endpoints matches Err(words) && words@ == lan::unreadable_text(reason),
        },
{
    let inner: &NetworkConfigV1 = config.as_config();
    let bound: Vec<EndpointId> = match read_bound_endpoints(&inner.endpoint_bindings) {
        Ok(bound) => bound,
        Err((_, words)) => return Err(words),
    };
    let mut others: Vec<EndpointId> = Vec::new();
    let mut i: usize = 0;
    while i < bound.len()
        invariant
            i <= bound.len(),
            forall|e: EndpointId| #[trigger]
                others@.contains(e) <==> bound@.take(i as int).contains(e) && e != local_endpoint,
        decreases bound.len() - i,
    {
        let ghost before = others@;
        let id: EndpointId = bound[i];
        proof {
            assert(bound@.take(i + 1) =~= bound@.take(i as int).push(id));
            assert forall|e: EndpointId| #[trigger]
                bound@.take(i + 1).contains(e) <==> bound@.take(i as int).contains(e) || e == id by {
                vstd::seq_lib::lemma_seq_contains_after_push(bound@.take(i as int), id, e);
            }
        }
        if id != local_endpoint {
            others.push(id);
            proof {
                assert forall|e: EndpointId| #[trigger]
                    others@.contains(e) <==> before.contains(e) || e == id by {
                    vstd::seq_lib::lemma_seq_contains_after_push(before, id, e);
                }
            }
        }
        i = i + 1;
    }
    assert(bound@.take(i as int) =~= bound@);
    let ghost items = others@;
    let sorted: Vec<EndpointId> = sorted_distinct(others);
    proof {
        lemma_sorted_endpoints(sorted@, items);
    }
    Ok(sorted)
}

/// The descriptor of the endpoint that serves an application now, or why there is none.
pub open spec fn discovered(
    network: NetworkId,
    directory_network: NetworkId,
    serving: Option<EndpointId>,
    app: AppAddr,
) -> Result<Peer, NetworkError> {
    if directory_network != network {
        Err(NetworkError::NetworkMismatch { local: network, target: directory_network })
    } else {
        match serving {
            None => Err(NetworkError::VirtualAddressUnresolved(app)),
            Some(endpoint_id) => Ok(
                Peer {
                    network_id: network,
                    app_addr: app,
                    endpoint_id,
                    relay_url: None,
                    direct_addresses: Seq::empty(),
                },
            ),
        }
    }
}

/// The endpoint that serves an address now according to a directory.
pub open spec fn serving(directory: &PresenceDirectory, address: ScopedVirtualAddr, now_ms: u64) -> Option<
    EndpointId,
> {
    match cache::server_of(directory.records(), directory.network(), address) {
        Some(r) => if r.expires_at_ms > now_ms {
            Some(r.endpoint_id)
        } else {
            None
        },
        None => None,
    }
}

/// Describes the endpoint that serves an application now according to a directory.
pub fn discovered_descriptor(
    network_id: NetworkId,
    directory: &PresenceDirectory,
    app_addr: AppAddr,
    now_ms: u64,
) -> (peer: Result<PeerDescriptor, NetworkError>)
    ensures
        match discovered(
            network_id,
            directory.network(),
            serving(directory, ScopedVirtualAddr::Server { app: app_addr }, now_ms),
            app_addr,
        ) {
            Ok(value) => peer matches Ok(peer) && peer@ == value,
            Err(reason) => peer matches Err(error) && error == reason,
        },
{
    if directory.network_id() != network_id {
        return Err(
            NetworkError::NetworkMismatch { local: network_id, target: directory.network_id() },
        );
    }
    match directory.resolve(ScopedVirtualAddr::Server { app: app_addr }, now_ms) {
        None => Err(NetworkError::VirtualAddressUnresolved(app_addr)),
        Some(endpoint_id) => {
            let peer = PeerDescriptor {
                network_id,
                app_addr,
                endpoint_id,
                relay_url: None,
                direct_addresses: Vec::new(),
            };
            assert(peer@.direct_addresses =~= Seq::<SocketAddress>::empty());
            Ok(peer)
        },
    }
}

} // verus!
