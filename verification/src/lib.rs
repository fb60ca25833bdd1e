//! Edge-firewall control plane: a rule-coalescing engine with TTL-driven
//! invalidation.
//!
//! Bans and unbans for network actors (identified by IP address and/or
//! User-Agent) are coalesced into one upstream firewall rule per filter kind.
//! A ban extends the kind's filter expression with an `or` clause, an unban
//! trims the clause back out, and an empty filter is deleted together with its
//! rule. The authoritative local state (filters and nongratas) lives in
//! [`store::Store`]; the pure decision logic of the executor and the
//! invalidator is verified here, while HTTP transport is left to callers.

pub mod cloudflare;
pub mod config;
pub mod errors;
pub mod executor;
pub mod gate;
pub mod handlers;
pub mod invalidator;
pub mod laws;
pub mod models;
pub mod store;
pub mod text;
