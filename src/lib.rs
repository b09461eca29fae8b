//! A verified model of a beacon-chain node's core: block and state types with
//! their canonical encoding, the per-slot and per-block state transition, an
//! LMD-GHOST fork choice, and the coordinator that ingests blocks and
//! attestations and keeps the canonical head.
pub mod root;
pub mod types;
pub mod codec;
pub mod transition;
pub mod fork_choice;
pub mod store;
pub mod chain;
pub mod harness;
pub mod api;
pub mod models;
pub mod bls;
pub mod signature_sets;
pub mod op_pool;
pub mod wire;
pub mod rpc;
