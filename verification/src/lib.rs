//! Leaf-execution tier of a distributed full-text search engine.
//!
//! A query arrives together with a list of immutable index shards
//! ("splits") held in remote object storage. Each split is opened through
//! a layered byte-source stack backed by a footer cache, warmed up so that
//! every posting list and column the query will touch is resident, and
//! executed; the per-split partial results are merged into one response
//! while failed splits are recorded as retryable errors instead of
//! aborting the whole request. A memory admission controller bounds how
//! many splits may be in their warmup phase at once.

pub mod admission;
pub mod error;
pub mod footer_cache;
pub mod index_model;
pub mod leaf;
pub mod source;
pub mod storage;
pub mod warmup;
