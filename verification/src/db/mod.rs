//! Transactions over the database.

pub mod write;

pub use write::{CommitAction, CommitError, CommitEvent, NewError, PendingCommit, Write};
