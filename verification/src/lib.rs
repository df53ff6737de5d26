//! A ledger for client accounts: deposits, withdrawals and the dispute
//! life cycle (dispute, resolve, chargeback), applied one transaction at a
//! time.
//!
//! All amounts are exact decimals. An operation that is not legal in the
//! state of its account, or whose result could not be held exactly, is
//! ignored and leaves the ledger as it was; nothing here fails or panics.
//!
//! - [`amount`]: exact decimal amounts, on top of `rust_decimal`.
//! - [`transaction`]: the records of the input.
//! - [`account`]: one account and the rules of its operations.
//! - [`engine`]: all accounts, and the routing of a transaction.
//! - [`output`]: the snapshot of an account.
//! - [`run`]: a whole run, from the transactions to the snapshot.
//! - [`laws`]: what holds whatever the transactions are.

pub mod account;
pub mod amount;
pub mod engine;
pub mod laws;
pub mod output;
pub mod run;
pub mod transaction;
