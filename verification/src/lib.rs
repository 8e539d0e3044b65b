//! A single-node ledger: proof-of-work sealed blocks of value transfers,
//! held as a hash-linked chain, with an index of the outputs that are still
//! unspent.
//!
//! Every function here carries a contract over the mathematical models in
//! [`model`] and [`unspent`]. Calls into the hashing, signing, encoding and
//! Merkle-tree crates and into the system clock stand behind small trusted
//! wrappers, in [`digest`], [`signature`], [`codec`], [`merkle`] and
//! [`clock`]; their doc comments say what is assumed of each.
//!
//! The ledger lives in memory. Reading it from a store and writing it back
//! is left to the caller: [`blockchain::Blockchain::next_key`] and
//! [`blockchain::Blockchain::new`] rebuild and check a ledger from stored
//! blocks.

pub mod error;
pub mod digest;
pub mod signature;
pub mod codec;
pub mod clock;
pub mod merkle;
pub mod hex;
pub mod model;
pub mod unspent;
pub mod transaction;
pub mod block;
pub mod blockchain;
pub mod utxoset;
pub mod spend;
pub mod signing;
