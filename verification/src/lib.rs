//! Canonical binary representation of Ethereum transaction receipts.
//!
//! The crate models logs, receipt payloads and typed receipts, derives the
//! 2048-bit logs bloom filter, and produces the exact RLP byte encoding
//! (with the EIP-2718 one-byte type envelope for non-legacy receipts),
//! together with its length.

pub mod bloom;
pub mod receipt;
pub mod rlp;
pub mod types;
