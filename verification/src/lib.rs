//! Core of a Git repository indexer: repository discovery, incremental
//! commit indexing, and branch-equivalence queries over the indexed rows.
//!
//! The library holds the verified logic. Everything that touches the
//! outside world (the on-disk repositories, the SQLite database, the HTTP
//! layer) lives in the surrounding application, which probes, fetches and
//! reads, and hands this library plain values to decide on.

pub mod branch_store;
pub mod clock;
pub mod commit_store;
pub mod config;
pub mod diffview;
pub mod discovery;
pub mod entities;
pub mod error;
pub mod gitmodel;
pub mod idempotence;
pub mod laws;
pub mod repository_store;
pub mod scheduler;
pub mod table;
pub mod text;
pub mod values;
pub mod worker;
