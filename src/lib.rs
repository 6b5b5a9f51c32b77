//! A budget ledger: named budgets with a total amount, transactions recorded
//! against them, and balances recomputed from the transactions.
//!
//! Amounts are whole cents held in `i64`.

pub mod balance;
pub mod laws;
pub mod ledger;
pub mod text;
