//! Core of a BIP300/BIP301 drivechain enforcer: a deterministic validator
//! that follows a Bitcoin-compatible mainchain and maintains, per block, the
//! state of sidechain slot proposals, activations, withdrawal-bundle voting,
//! two-way-peg treasury UTXOs, and blind-merge-mined (BMM) commitments.
//!
//! The crate holds the verified state machine: message handling, vote
//! tallying, treasury (Ctip) lineage, BMM acceptance, block connection and
//! disconnection, and the derived-state queries. Networking, the embedded
//! store's file handling, and the RPC surface live outside the library and
//! hand it plain values.

pub mod bytes;
pub mod codec;
pub mod digest;
pub mod engine;
pub mod laws;
pub mod proto;
pub mod queries;
pub mod rpc_auth;
pub mod seqmap;
pub mod state;
pub mod sync;
pub mod types;
pub mod validator;
