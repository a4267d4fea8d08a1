//! A transaction engine that replays deposits, withdrawals and the dispute
//! lifecycle against client accounts.
//!
//! Each record is checked against the current state and either applied in
//! full or refused with no change. The contracts of `Engine::process_row`
//! give the outcome and the new state of every record exactly, and the
//! `lemma_*` proof functions of `engine` state the laws that follow.
pub mod amount;
pub mod engine;
pub mod models;
pub mod stores;
pub mod summary;

pub use amount::Amount;
pub use engine::{Engine, ProcessingError};
pub use models::{AccountData, Transaction, TransactionType, TxRow};
pub use stores::{AccountStore, DataError, LockedAccountStore, TransactionStore};
pub use summary::{summarize, AccountSummary};
