//! A single-writer double-entry bookkeeping ledger.
//!
//! The ledger records vouchers (dated, balanced sets of debit/credit rows
//! against a chart of accounts), assigns gapless sequential numbers per
//! voucher series, freezes history through period locks, corrects posted
//! vouchers by reversing entries, and keeps an append-only audit trail.

pub mod export;
pub mod laws;
pub mod ledger;
pub mod model;
pub mod reports;
pub mod text;
