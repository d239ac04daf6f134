//! A governed registry of authorised accounts and the announcement log that
//! only those accounts may write.
//!
//! Changes of the whitelist need the confirmation of two thirds of its
//! members; announcements are kept by id and can be read by author, by
//! topic and by time, newest first.
//!
//! - [`contract`] holds the registry and its commands, [`query`] what can
//!   be read from it, [`migrate`] the move to a newer version;
//! - [`rules`] says what each command does to the value of the registry,
//!   and [`laws`] what follows for every registry;
//! - [`quorum`] and [`batch`] are the voting engine over the [`ledger`] of
//!   open proposals;
//! - [`store`] keeps the announcements with an [`index`] for each
//!   ordering, [`topics`] the topics they are filed under;
//! - [`state`], [`msg`] and [`error`] are the records, messages and
//!   errors; [`text`], [`assoc`] and [`precedence`] what the rest is
//!   built on.

pub mod assoc;
pub mod batch;
pub mod contract;
pub mod error;
pub mod index;
pub mod laws;
pub mod ledger;
pub mod migrate;
pub mod msg;
pub mod precedence;
pub mod query;
pub mod quorum;
pub mod rules;
pub mod state;
pub mod store;
pub mod text;
pub mod topics;

pub use crate::error::ContractError;
