//! Outbound transport for consensus messages addressed by store id.
//!
//! The library resolves a destination store id to a network address through a
//! caller-supplied resolver, memoizes the result, multiplexes messages onto
//! one buffered connection per store, and transmits each buffer as a batch
//! when the caller flushes.

pub mod cache;
pub mod raft_client;
pub mod registry;
pub mod resolve;
pub mod transport;
pub mod types;
pub mod wire;
