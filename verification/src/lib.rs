//! Flag lifecycle and submission engine for attack/defense CTF operations.
//!
//! Captured flags are recorded once per distinct value, handed out in bounded
//! batches on a fixed cadence, reconciled against the scoring endpoint's
//! verdicts, retried after transient failures and retired once their scoring
//! window has closed.

pub mod flag;
pub mod normalize;
pub mod order;
pub mod ledger;
pub mod store;
pub mod pattern;
pub mod engine;
pub mod laws;
pub mod store_laws;
pub mod team;
pub mod api;
