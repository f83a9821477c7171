//! A local code-intelligence engine: extracts function-level units from
//! source files, keeps a content-hash-keyed incremental cache of embedding
//! vectors, ranks functions against a query vector, and answers literal
//! substring searches with surrounding context.
//!
//! Filesystem traversal, the embedding model, and result encoding are the
//! host's business; this crate holds the logic between those edges.

pub mod cache;
pub mod codec;
pub mod concept;
pub mod config;
pub mod extraction;
pub mod rank;
pub mod scan;
pub mod search;
pub mod structs;
pub mod text;
