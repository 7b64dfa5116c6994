//! Verified core of a chain-event ingestion service for a prediction-market
//! platform: cursor-driven polling arithmetic, ABI-shaped log decoding, event
//! handlers that maintain derived proposal state, an in-memory store model
//! with idempotent writes, and a subscription registry with broadcast fan-out
//! and a per-connection heartbeat protocol.
//!
//! Network and database I/O live outside this crate; the functions here take
//! fetched values (block numbers, raw logs, transaction inputs, contract-call
//! results) as arguments and decide what to write, what to broadcast, and how
//! the cursor advances.

pub mod abi;
pub mod address;
pub mod config;
pub mod events;
pub mod factory;
pub mod handle;
pub mod laws;
pub mod proposals;
pub mod router;
pub mod scheduler;
pub mod session;
pub mod state;
pub mod store;
pub mod ws;
