//! Core of a permissioned proof-of-stake blockchain node: signed transactions
//! are ordered into blocks by a stake-weighted BFT consensus engine, block
//! payloads are published through a sharded data-availability layer, and a
//! deterministic execution runtime applies transactions against a versioned
//! chain state, sealing a verifiable state commitment at each height.

pub mod apply;
pub mod block;
pub mod bytes;
pub mod codec;
pub mod consensus;
pub mod da;
pub mod crypto;
pub mod domain_configs;
pub mod domains;
pub mod node;
pub mod errors;
pub mod root;
pub mod runtime;
pub mod sequencer;
pub mod state;
pub mod sums;
pub mod tx;
pub mod vm;
pub mod tx_codec;
pub mod tx_roundtrip;
pub mod zk;
pub mod zk_privacy;

pub use bytes::bytes_eq;
