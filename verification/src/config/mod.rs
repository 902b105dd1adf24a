pub mod acceptance;
pub mod chain;
pub mod envelope;
pub mod exact;
pub mod opening;
pub mod sealing;
pub mod snapshot;
pub mod validate;
