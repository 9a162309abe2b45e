//! Verified core of the Qlaro data catalog: schema inference for delimited text,
//! the canonical Arrow type contract, dataset identity, the catalog store,
//! column profiling and the ingestion protocol.

pub mod text;
pub mod schema;
pub mod error;
pub mod recognizers;
pub mod schema_inference;
pub mod profiler;
pub mod hashing;
pub mod types;
pub mod cancel;
pub mod catalog;
pub mod format;
pub mod ingest;
pub mod ipc;
