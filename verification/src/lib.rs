//! Ingestion core of a deduplicating, content-addressed chunk store.
//!
//! Data chunks arrive on a work queue. For each chunk a worker computes a
//! content digest, searches the store's generations (newest to oldest, with a
//! trailing re-check of the current generation) for an identical chunk,
//! migrates a copy found in an older generation forward, or transforms
//! (compress/encrypt) and writes a new chunk exactly once, and finally sends
//! `(sequence_id, digest)` back on the request's response channel.

pub mod buffer;
pub mod channel;
pub mod chunk_processor;
pub mod compression;
pub mod encryption;
pub mod hashing;
pub mod store;
pub mod types;
