//! Working memory and capability dispatch for a single-process agent loop:
//! a bounded history of records with oldest-first eviction of unprotected
//! records, a table of built-in operations over a key/value store, and the
//! loop step that routes each input and records what happened.
pub mod agent;
pub mod context;
pub mod text;
pub mod tools;
