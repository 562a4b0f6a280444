//! Block headers, the search for proof-of-work, and blocks.

pub mod block;
pub mod mining_block;
