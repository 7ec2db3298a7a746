//! A verified core for a UDP BitTorrent tracker.
//!
//! The crate has three layers:
//! - [`wire`]: big-endian byte-order conversions with exact specifications;
//! - [`protocol`]: the datagram codec, decoding raw bytes into typed requests
//!   and encoding typed responses back into bytes, with round-trip proofs;
//! - [`tracker`]: the per-swarm bookkeeping and the engine that turns a
//!   validated request into a state transition and a response.

pub mod protocol;
pub mod tracker;
pub mod wire;
