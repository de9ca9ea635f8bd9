//! A shared-expense ledger: trips, their members, pairwise loans between
//! members, and each member's net balance against the others.
//!
//! Every operation is stated over a mathematical model of the ledger and
//! proved against it.

pub mod decimal;
pub mod error;
pub mod text;
pub mod model;
pub mod membership;
pub mod records;
pub mod book;
pub mod balance;
pub mod upkeep;
pub mod tracker;
pub mod laws;
pub mod refund;
pub mod archive;

pub use archive::LedgerData;
pub use error::{ErrorKind, LedgerError, Party};
pub use records::{Expense, ExpenseStats, TripMetadata};
pub use refund::refund_deposit;
pub use tracker::ExpenseTracker;
