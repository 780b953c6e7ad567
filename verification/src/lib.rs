//! An account-balance ledger: a mapping from owner identity to a `u64`
//! balance, mutated only by `credit` (create-or-add) and `transfer`
//! (debit-then-credit), and read by `balance_of`. Every mutation either
//! applies completely or leaves the ledger untouched, and no balance can
//! be driven below zero or past `u64::MAX`.

pub mod laws;
pub mod ledger;
