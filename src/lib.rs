//! An in-memory inventory ledger: items keyed by a token, indexed by type and by
//! configuration id, with single-item mutations and all-or-nothing batches.
pub mod bag;
pub mod item;
pub mod laws;
pub mod maps;
pub mod model;
