//! An in-memory multi-version concurrency control (MVCC) key-value store.
//!
//! A [`db::Database`] holds an append-only version history for each key and a
//! registry of every transaction ever started. Transactions are begun, run and
//! completed through [`tx::Connection`] handles that dispatch
//! [`tx::Command`] values. Five isolation levels are supported; which versions
//! a transaction can see is decided by a pure visibility predicate over the
//! version stamps and the registry, and commits under the stricter levels are
//! guarded by a conflict detector over read and write sets.

pub mod db;
pub mod laws;
pub mod tx;
