//! A verified core for a stateful indexer of ERC-20 Transfer events.
//!
//! The library contains the pure logic of the indexer: decoding raw logs,
//! classifying RPC failures, the adaptive batch / retry policy, the
//! idempotent store model with its monotonic synchronization cursor, and
//! the per-range and per-event ingestion steps of the historical backfill
//! and the live subscription workers.  All network and database traffic is
//! performed by a thin unverified shell around this crate, which feeds the
//! verified step functions with plain values.

pub mod batch;
pub mod classify;
pub mod config;
pub mod decode;
pub mod errors;
pub mod hex;
pub mod ingest;
pub mod store;
pub mod topic;
