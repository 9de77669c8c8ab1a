//! Incremental, resumable indexing of the event log of one Hyperdrive pool:
//! page scheduling over block ranges, the timestamp-to-block locator, the
//! position ledgers with their invariants, and the checkpoint document.

pub mod hex;
pub mod keys;
pub mod ledger;
pub mod locator;
pub mod prices;
pub mod run;
pub mod scheduler;
pub mod state;
pub mod store;
pub mod text;
pub mod word;
