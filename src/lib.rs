//! A content-addressed image repository: the index of aliases, hashes and
//! filenames kept in an ordered key/value store, the rules of ingest and
//! deletion, and the chain of transforms that derives variants.
pub mod error;
pub mod keys;
pub mod media;
pub mod processor;
pub mod guarantees;
pub mod store;
pub mod upload_manager;
