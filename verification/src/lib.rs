//! Core of a single-node ledger: transaction commitment, proof-of-work,
//! validation of blocks and transactions against the unspent-output set,
//! and the chain state that accepted blocks are applied to.

pub mod block_chain;
pub mod blocks;
pub mod crypto;
pub mod encoding;
pub mod keys;
pub mod shared;
pub mod transactions;
pub mod utxo_map;
