//! Escrow and dispute resolution for a token contract.
//!
//! Funds are locked for a recipient until a ledger is reached, milestone by
//! milestone, or until an arbitrator decides. Every entry point is a function
//! from the contract's entries and the context of the call to what the call
//! answers and, in order, what it asks of the host: authorisations, transfers,
//! changes of the locked balance, writes, extensions of an entry's life, and
//! events. The host performs them.
pub mod abort;
pub mod accounts;
pub mod action;
pub mod batch_create;
pub mod batch_flows;
pub mod batch_openings;
pub mod batch_outcome;
pub mod batch_settle;
pub mod batch_settlements;
pub mod chunks;
pub mod claim;
pub mod conduct;
pub mod create;
pub mod dispute;
pub mod flows;
pub mod funds;
pub mod guard;
pub mod history;
pub mod laws;
pub mod lifetimes;
pub mod milestone;
pub mod openings;
pub mod outcomes;
pub mod query;
pub mod readings;
pub mod sequences;
pub mod soundness;
pub mod store;
pub mod tally;
pub mod types;
pub mod wording;
