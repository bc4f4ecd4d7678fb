use vstd::prelude::*;

use crate::ixs::{find_migrate_mint, migrate_mints};
use crate::seqs::first_some;
use crate::types::{is_pump_program, mentions_pump_program, MigrateRecord, Pubkey, TxInfo};

verus! {

/// The record a transaction yields: its first pump `migrate` instruction's
/// mint, with the transaction's signature and slot.
pub open spec fn migrate_record_of<R>(tx: TxInfo<R>) -> Option<MigrateRecord> {
    match first_some(migrate_mints(tx.flattened_ixs@)) {
        Some(m) => Some(MigrateRecord { mint: m, signature: tx.signature, slot: tx.slot }),
        None => None,
    }
}

/// Detects pump migrations in a stream of transactions.
pub struct PumpMigrateMonitor {}

impl PumpMigrateMonitor {
    /// A new monitor.
    pub fn new() -> (m: Self) {
        PumpMigrateMonitor {}
    }

    /// Whether the monitor wants to see a transaction with these accounts:
    /// those that involve the pump program.
    pub fn interested(&self, account_keys: &Vec<Pubkey>) -> (r: Option<bool>)
        ensures
            r == Some(exists|i: int| 0 <= i < account_keys@.len() && is_pump_program(#[trigger] account_keys@[i])),
    {
        Some(mentions_pump_program(account_keys))
    }

    /// The migration record a transaction yields, to be stored, if it holds a
    /// pump `migrate` instruction.
    pub fn on_tx<R>(&self, tx: &TxInfo<R>) -> (r: Option<MigrateRecord>)
        ensures
            r == migrate_record_of(*tx),
    {
        match find_migrate_mint(&tx.flattened_ixs) {
            Some(mint) => Some(MigrateRecord { mint, signature: tx.signature, slot: tx.slot }),
            None => None,
        }
    }
}

} // verus!
