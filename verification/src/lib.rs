//! Offline-first edge payments.
//!
//! Built to run on a Raspberry Pi at a venue with flaky or absent connectivity.
//! Sales are recorded *fully offline* into a local, append-only ledger
//! ([`store`]): money is integer cents, never a float, and every sale is an
//! immutable row. A sale is born queued in the outbox; when connectivity returns,
//! [`Store::square_sync`] pushes the queued rows to Square and marks them synced
//! with their returned Square id.
//!
//! Fail-safe by design: without a token the sync does not error. It reports how
//! many transactions are queued, and sales go on being taken.
//!
//! - [`store`]: the ledger and its outbox.
//! - [`report`]: the tools' answers, as text.
//! - [`config`]: what the environment says.
//! - [`clock`], [`receipt`], [`text`]: time, receipt ids and strings.
//! - [`model`]: what the contracts speak of; [`laws`]: what holds of it.
//! - [`fields`]: what the operations give, column by column and character by
//!   character; [`answers`]: what the answers show, and where.

pub mod answers;
pub mod clock;
pub mod config;
pub mod error;
pub mod fields;
pub mod laws;
pub mod lemmas;
pub mod model;
pub mod receipt;
pub mod report;
mod source;
pub mod store;
pub mod text;

pub use error::Error;
pub use store::{ReconcileReport, Row, Store, Tally, Transaction};
