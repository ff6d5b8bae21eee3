//! Reconciliation of a time-tracking client's configuration and idempotent
//! installation of its integrations.
//!
//! The crate decides; its callers perform. Reading files, prompting the
//! user, talking to the network and spawning processes all happen outside,
//! and their results are handed in as plain values.

pub mod defaults;
pub mod document;
pub mod installer;
pub mod prompt;
pub mod reconciler;
pub mod report;
pub mod shell;
pub mod targets;
pub mod text;
pub mod validator;
