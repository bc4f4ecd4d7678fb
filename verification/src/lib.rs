//! Assembles pump create bundles (a create transaction and the transactions
//! that follow it in the same slot) out of a transaction stream, and analyses
//! stored bundles.

pub mod address;
pub mod analysis;
pub mod args;
pub mod filters;
pub mod format;
pub mod ixs;
pub mod keys;
pub mod monitor;
pub mod seqs;
pub mod types;

pub use types::{FlatIx, IxFacts, MigrateRecord, Pubkey, PumpBuy, Signature, TxBundle, TxInfo};
