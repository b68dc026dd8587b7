//! A small proof-of-work blockchain whose payload is a registry of DNS zones
//! and domains. Each block either establishes a zone, registers a domain under
//! an existing zone, or is a lightweight signing block that ratifies the
//! latest payload block under a delegated-signer protocol.
//!
//! The chain engine here validates candidate blocks, extends and repairs the
//! chain, elects signers, and answers name-availability queries. Persistence,
//! networking and the worker threads of the miner live outside this library;
//! they hand blocks and plain values in and out.

pub mod block;
pub mod chain;
pub mod constants;
pub mod names;
pub mod settings;
pub mod timeutil;
pub mod transaction;
pub mod types;
pub mod validity;
pub mod bytes;
pub mod codec;
pub mod hashing;
pub mod keys;
pub mod laws;
pub mod miner;
