//! Core logic of an Ethereum bridge pool relayer.
//!
//! The crate selects an economically optimal batch of pending cross-chain
//! transfers to relay to Ethereum, estimates the number of signature
//! checks a quorum requires, and validates nonce ordering before a
//! submission. Fee and gas accounting is carried out on verified 256-bit
//! fixed-width integers; a transfer's identity is the keccak256 digest of
//! its canonical binary encoding.

pub mod batch;
pub mod control;
pub mod eligible;
pub mod fees;
pub mod hash;
pub mod num256;
pub mod optimizer;
pub mod quorum;
pub mod relay;
pub mod types;
