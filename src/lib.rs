//! An in-memory account ledger: a fixed set of accounts, each with an
//! overdraft limit and a running balance, and an append-only log of the
//! credits and debits that were accepted.
//!
//! Every operation is stated against the model in [`model`]: a ledger is a
//! sequence of accounts sorted by id together with the log, and a request
//! moves it by [`model::Ledger::step`].

mod clock;
pub mod model;
pub mod store;
pub mod laws;

pub use model::{
    Client, ExtratoResponse, Transaction, TransactionError, TransactionInfo,
    TransactionResponse, TransactionType, RECENT_LIMIT,
};
pub use store::AppState;
