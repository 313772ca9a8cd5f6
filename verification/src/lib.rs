//! A local file-content search library: per-file ingestion into a full-text
//! index plus a relational metadata store, content-type resolution, text
//! extraction, full-text search, and duplicate grouping by content hash.

pub mod determine_file_type;
pub mod duplicates;
pub mod errors;
pub mod extraction;
pub mod hashing;
pub mod laws;
pub mod metadata_store;
pub mod mime;
pub mod model;
pub mod pathname;
pub mod pipeline;
pub mod readability;
pub mod scanned_file;
pub mod scanning;
pub mod search_index;
pub mod service;
pub mod settings;
