//! The logic of a virtual network: identities, configurations, discovery and connections.
pub mod config;
pub mod crypto;
pub mod digits;
pub mod discovery;
pub mod fixture;
pub mod identifiers;
pub mod layout;
pub mod net;
pub mod order;
pub mod outside;
pub mod provisioning;
pub mod text;
pub mod virtual_name;
pub mod wire;
pub mod workload;
