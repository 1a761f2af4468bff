//! A versioned schema-migration engine for an embedded, single-writer store.
//!
//! A store is brought up to a list of migrations: every migration that the
//! store's ledger does not hold is applied, by ascending version, each in a
//! transaction of its own together with its ledger entry, and the first
//! failure ends the run.
//!
//! The engine decides; the caller performs. [`engine::Synchronizer`] is a
//! state machine that hands out one [`engine::Action`] at a time and takes the
//! store's [`engine::Event`] back, so that it can sit in front of any store.
//! [`synchronize::synchronize`] runs it against a store in memory.
//!
//! - [`migration`]: migrations, their validation and their order.
//! - [`error`]: the failures that a synchronisation reports.
//! - [`engine`]: the state machine.
//! - [`store`]: the store as the engine sees it, and a store in memory.
//! - [`outcome`]: what a synchronisation comes to, stated directly.
//! - [`run`]: the proof that the machine arrives there.
//! - [`laws`]: idempotence, recovery after an interruption, atomicity, order.
//! - [`synchronize`]: the machine run against the store in memory.
//! - [`revert`]: when a migration may be taken out again.
//! - [`schema`]: the schema of the quiz application.

pub mod engine;
pub mod error;
pub mod laws;
pub mod migration;
pub mod outcome;
pub mod revert;
pub mod run;
pub mod schema;
pub mod store;
pub mod synchronize;
