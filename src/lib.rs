//! Verified core of a PostgreSQL wire-protocol proxy that injects per-tenant session
//! context before handing the session to the client.
//!
//! - `codec`: startup and message framing, message builders.
//! - `quote`: SQL literal and identifier quoting.
//! - `auth`: MD5 and SCRAM-SHA-256 client authentication.
//! - `session`: tenant identity, context map, injected batch, per-message decisions.
//! - `resolver`: resolver definitions, dependency order, parameter substitution, row parsing.
//! - `pool`: session pool bookkeeping.
//! - `tenant`: tenant allow/deny lists, connection ceiling and rate window.
//! - `config`: the configuration record and its file format.
//! - `metrics`: shared counters.
//! - `text`, `wire`: text and byte helpers.

pub mod text;
pub mod quote;
pub mod wire;
pub mod codec;
pub mod resolver;
pub mod session;
pub mod tenant;
pub mod pool;
pub mod auth;
pub mod metrics;
pub mod config;
