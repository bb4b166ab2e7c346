//! A voting ledger kept on top of a version-control history.
//!
//! Signed vote commits are replayed into a hash-chained block sequence,
//! which can then be validated and tallied.
pub mod block;
pub mod environment;
pub mod error;
pub mod genesis;
pub mod history;
pub mod laws;
pub mod reader;
pub mod replay;
pub mod schema;
pub mod tally;
pub mod text;
pub mod validate;
pub mod vote;
