//! What an application asks of its network: which addresses it holds, and who is behind the
//! addresses and names it wants to reach.
use crate::config::envelope::ConfigError;
use crate::config::snapshot::Config;
use crate::config::validate;
use crate::config::validate::ValidatedNetworkConfig;
use crate::discovery::address::SocketAddress;
use crate::discovery::authorize;
use crate::discovery::directory::PresenceDirectory;
use crate::discovery::presence::DiscoveryError;
use crate::identifiers::{AppAddr, ClientAddr, EndpointId, NetworkId, ScopedVirtualAddr, ServerAddr, VirtualAddr};
use crate::net::authorize as granted;
use crate::net::bindings;
use crate::net::bindings::LocalBinding;
use crate::net::config_state::ConfigStateError;
use crate::net::node;
use crate::net::node::NodeConfig;
use crate::net::peers;
use crate::net::peers::{ConfigAuthorizationError, Peer, PeerDescriptor};
use crate::net::protocol::NetworkError;
use crate::outside;
use crate::virtual_name::VirtualName;
use crate::wire;
use vstd::prelude::*;

verus! {

/// Why something that an application asked of its network was not done.
#[derive(Debug, PartialEq, Eq)]
pub enum NetworkHandleError {
    InsecureStoreCapabilities,
    CorruptSecret,
    NetworkMismatch { local: NetworkId, target: NetworkId },
    TargetMustBeServer,
    ClientAddressMismatch,
    UnknownVirtualName(VirtualName),
    ConfigState(ConfigStateError),
    Config(ConfigError),
    Authorization(ConfigAuthorizationError),
    Discovery(DiscoveryError),
    Network(NetworkError),
}

/// The error of a setup as an error of a handle.
pub open spec fn setup_error(
    node: Result<NodeConfig, ConfigAuthorizationError>,
) -> Result<NodeConfig, NetworkHandleError> {
    match node {
        Ok(node) => Ok(node),
        Err(e) => Err(NetworkHandleError::Authorization(e)),
    }
}

/// Sets up an endpoint as a configuration says, with one address. A client address must be the one
/// that the endpoint's member is given.
pub fn node_for_binding(secret_key: [u8; 32], config: &ValidatedNetworkConfig, binding: LocalBinding) -> (node: Result<
    NodeConfig,
    NetworkHandleError,
>)
    ensures
        match binding {
            LocalBinding::Server(address) => exists|res: Result<NodeConfig, ConfigAuthorizationError>|
                #[trigger] node::configured_node(
                    config@,
                    secret_key,
                    set![ScopedVirtualAddr::Server { app: address.app }],
                    res,
                ) && node == setup_error(res),
            LocalBinding::Client(address) => match granted::client_address(
                config@,
                EndpointId(wire::array_of(outside::endpoint_public(secret_key@))),
                address.app,
            ) {
                Err(reason) => node == Err::<NodeConfig, NetworkHandleError>(
                    NetworkHandleError::Authorization(reason),
                ),
                Ok(held) => exists|res: Result<NodeConfig, ConfigAuthorizationError>|
                    #[trigger] node::configured_node(
                        config@,
                        secret_key,
                        set![bindings::scoped_of(LocalBinding::Client(held))],
                        res,
                    ) && node == (if res is Ok && held != address {
                        Err(NetworkHandleError::ClientAddressMismatch)
                    } else {
                        setup_error(res)
                    }),
            },
        },
{
    match binding {
        LocalBinding::Server(address) => {
            let res: Result<NodeConfig, ConfigAuthorizationError> =
                NodeConfig::tcp_server_from_config(secret_key, config, address.app());
            let ghost made = res;
            assert(node::configured_node(
                config@,
                secret_key,
                set![ScopedVirtualAddr::Server { app: address.app }],
                made,
            ));
            match res {
                Ok(node) => Ok(node),
                Err(error) => Err(NetworkHandleError::Authorization(error)),
            }
        },
        LocalBinding::Client(address) => {
            let res: Result<NodeConfig, ConfigAuthorizationError> = NodeConfig::client_from_config(
                secret_key,
                config,
                address.app(),
            );
            let ghost made = res;
            match res {
                Ok(node) => {
                    proof {
                        let held = granted::client_address(
                            config@,
                            EndpointId(wire::array_of(outside::endpoint_public(secret_key@))),
                            address.app,
                        )->Ok_0;
                        assert(node::configured_node(
                            config@,
                            secret_key,
                            set![bindings::scoped_of(LocalBinding::Client(held))],
                            made,
                        ));
                        assert(node.local_bindings@ == set![
                            bindings::scoped_of(LocalBinding::Client(held)),
                        ]);
                    }
                    if node.local_bindings.contains_client(address) {
                        Ok(node)
                    } else {
                        Err(NetworkHandleError::ClientAddressMismatch)
                    }
                },
                Err(error) => Err(NetworkHandleError::Authorization(error)),
            }
        },
    }
}

/// The application that a target stands for: a server of the same network.
pub open spec fn target_verdict(network: NetworkId, target: VirtualAddr) -> Result<
    AppAddr,
    NetworkHandleError,
> {
    if target.network != network {
        Err(NetworkHandleError::NetworkMismatch { local: network, target: target.network })
    } else {
        match target.addr {
            ScopedVirtualAddr::Server { app } => Ok(app),
            ScopedVirtualAddr::Client { .. } => Err(NetworkHandleError::TargetMustBeServer),
        }
    }
}

/// Finds the application that a target stands for.
pub fn validate_server_target(network_id: NetworkId, target: VirtualAddr) -> (app: Result<
    AppAddr,
    NetworkHandleError,
>)
    ensures
        app == target_verdict(network_id, target),
{
    if target.network != network_id {
        return Err(
            NetworkHandleError::NetworkMismatch { local: network_id, target: target.network },
        );
    }
    match target.addr {
        ScopedVirtualAddr::Server { app } => Ok(app),
        ScopedVirtualAddr::Client { .. } => Err(NetworkHandleError::TargetMustBeServer),
    }
}

/// The server that a name stands for now, as the configuration says.
pub fn resolve_name(config: &ValidatedNetworkConfig, name: &VirtualName, now_ms: u64) -> (server: Result<
    ServerAddr,
    NetworkHandleError,
>)
    ensures
        match validate::resolve(config@.virtual_dns, name@, now_ms) {
            Some(app) => server == Ok::<ServerAddr, NetworkHandleError>(ServerAddr { app }),
            None => server matches Err(NetworkHandleError::UnknownVirtualName(unknown)) && unknown@
                == name@,
        },
{
    match config.resolve_virtual_name(name, now_ms) {
        Some(app) => Ok(ServerAddr::new(app)),
        None => Err(NetworkHandleError::UnknownVirtualName(name.clone())),
    }
}

/// The endpoint behind an application: the one whose current presence serves it, or else the one
/// that the configuration puts there.
pub open spec fn behind(
    serving: Option<EndpointId>,
    directory_network: NetworkId,
    config: Config,
    app: AppAddr,
    now_ms: u64,
) -> Result<EndpointId, NetworkHandleError> {
    match serving {
        Some(endpoint) => Ok(endpoint),
        None => if config.network_id != directory_network {
            Err(NetworkHandleError::Discovery(DiscoveryError::WrongNetwork))
        } else {
            match authorize::endpoint_behind(config, ScopedVirtualAddr::Server { app }, now_ms) {
                Ok(endpoint) => Ok(endpoint),
                Err(e) => Err(NetworkHandleError::Discovery(e)),
            }
        },
    }
}

/// Finds the endpoint behind an application.
pub fn resolve_configured_server(
    directory: &PresenceDirectory,
    config: &ValidatedNetworkConfig,
    app: AppAddr,
    now_ms: u64,
) -> (endpoint: Result<EndpointId, NetworkHandleError>)
    ensures
        endpoint == behind(
            peers::serving(directory, ScopedVirtualAddr::Server { app }, now_ms),
            directory.network(),
            config@,
            app,
            now_ms,
        ),
{
    let address = ScopedVirtualAddr::Server { app };
    match directory.resolve(address, now_ms) {
        Some(endpoint) => Ok(endpoint),
        None => match directory.configured_endpoint(config, address, now_ms) {
            Ok(endpoint) => Ok(endpoint),
            Err(error) => Err(NetworkHandleError::Discovery(error)),
        },
    }
}

/// Describes whom to connect to in order to reach a target: how to reach it is left to what
/// discovery knows.
pub fn dial_target(
    network_id: NetworkId,
    directory: &PresenceDirectory,
    config: &ValidatedNetworkConfig,
    target: VirtualAddr,
    now_ms: u64,
) -> (peer: Result<PeerDescriptor, NetworkHandleError>)
    ensures
        match target_verdict(network_id, target) {
            Err(reason) => peer matches Err(error) && error == reason,
            Ok(app) => match behind(
                peers::serving(directory, ScopedVirtualAddr::Server { app }, now_ms),
                directory.network(),
                config@,
                app,
                now_ms,
            ) {
                Err(reason) => peer matches Err(error) && error == reason,
                Ok(endpoint_id) => peer matches Ok(peer) && peer@ == (Peer {
                    network_id,
                    app_addr: app,
                    endpoint_id,
                    relay_url: None,
                    direct_addresses: Seq::empty(),
                }),
            },
        },
{
    let app: AppAddr = validate_server_target(network_id, target)?;
    let endpoint_id: EndpointId = resolve_configured_server(directory, config, app, now_ms)?;
    let peer = PeerDescriptor {
        network_id,
        app_addr: app,
        endpoint_id,
        relay_url: None,
        direct_addresses: Vec::new(),
    };
    assert(peer@.direct_addresses =~= Seq::<SocketAddress>::empty());
    Ok(peer)
}

/// The client address of an address, if it is one.
pub fn client_addr(address: ScopedVirtualAddr) -> (client: Option<ClientAddr>)
    ensures
        client == (match address {
            ScopedVirtualAddr::Client { app, device } => Some(ClientAddr { app, device }),
            ScopedVirtualAddr::Server { .. } => None,
        }),
{
    match address {
        ScopedVirtualAddr::Client { app, device } => Some(ClientAddr::new(app, device)),
        ScopedVirtualAddr::Server { .. } => None,
    }
}

} // verus!
