//! A social-messaging state machine: an account registry, a symmetric
//! friendship graph and per-channel append-only message logs.

pub mod host;
pub mod channel;
pub mod page;
pub mod contract;
pub mod laws;
