//! A durable file-change queue and job ledger for a file indexer.
//!
//! Raw change notifications are appended to an event log, deduplicated per path
//! when read, turned into file records and processing jobs, and the outcome of
//! each job batch is committed atomically.
//!
//! The store is single-writer and kept in memory; the program around it
//! writes it out. An event is marked processed only after it has been
//! applied, so after a restart the events that were not yet marked are
//! drained and applied again; no separate reconciliation of jobs is done.
//! Failed jobs are never retried: a later change event creates a new job.

pub mod events;
pub mod records;
pub mod content;
pub mod store;
pub mod ledger;
pub mod embeddings;
pub mod queue;
pub mod dispatch;
pub mod batch;
pub mod laws;
