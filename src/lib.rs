//! An Ethereum-compatible account layer over a UTXO ("cell") base chain:
//! transaction decoding, the account model carried by cells, the per-address
//! index kept in a key/value store, and the assembly of base-chain
//! transactions that persist new account state.

pub mod account;
pub mod address;
pub mod chain;
pub mod crypto;
pub mod error;
pub mod hex;
pub mod indexer;
pub mod keys;
pub mod loader;
pub mod num;
pub mod receipt;
pub mod runner;
pub mod storage;
pub mod transaction;
pub mod web3;
