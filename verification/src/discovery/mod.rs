pub mod acceptance;
pub mod address;
pub mod authorize;
pub mod cache;
pub mod directory;
pub mod lan;
pub mod lookup;
pub mod presence;
pub mod sealed;
