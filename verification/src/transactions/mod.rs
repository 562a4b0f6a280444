//! Transactions and the commitment of a block to its transactions.

pub mod merkel;
pub mod transaction;
pub mod transaction_input;
pub mod transaction_output;
