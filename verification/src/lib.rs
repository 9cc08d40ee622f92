//! Script-distribution relay core: a registry of connected executor clients,
//! a best-effort broadcast engine with partial-failure accounting, and the
//! heartbeat/timeout bookkeeping that detects and evicts dead connections.

pub mod client_manager;
pub mod config;
pub mod decimal;
pub mod gateway;
pub mod outcome;
pub mod types;
