//! A small single-currency payments ledger.
//!
//! The library keeps one account per client id, splits each balance into
//! available and held funds, and applies a stream of transactions (deposits,
//! withdrawals, and the dispute / resolve / chargeback lifecycle) while
//! enforcing the validity rules of the ledger.

pub mod amount;
pub mod client;
pub mod database;
pub mod parse_csv;
pub mod parse_env_args;
pub mod text;
pub mod transaction;

