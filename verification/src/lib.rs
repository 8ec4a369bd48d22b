//! Metadata and lifecycle layer for a log-comparison service: durable
//! report rows (one per requested target-vs-baseline comparison) and
//! model rows (content-addressed cached baseline representations),
//! together with the startup recovery pass that discards interrupted
//! `Pending` reports and garbage-collects cache entries whose format
//! version no longer matches the running engine.
//!
//! The store itself is a value: every operation is a plain state
//! transition with a contract. Durability (SQL statements, artifact
//! deletion on disk) is the caller's side of the boundary; each
//! mutating operation tells the caller exactly what changed.

pub mod status;
pub mod rows;
pub mod store;
pub mod laws;
