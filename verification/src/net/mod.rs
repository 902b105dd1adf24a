pub mod admission;
pub mod authorize;
pub mod bindings;
pub mod config_state;
pub mod handle;
pub mod identity;
pub mod identity_setup;
pub mod join_setup;
pub mod membership;
pub mod node;
pub mod outcomes;
pub mod paths;
pub mod peers;
pub mod presence_store;
pub mod protocol;
pub mod sync;
