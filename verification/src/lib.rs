//! Bulk loader for an approximate-nearest-neighbor index: every line of a
//! delimited text file carries an embedding vector as a JSON array in its
//! fifth field; every valid vector is stored under its line's ordinal, and the
//! filled index is serialized to disk.

pub mod config;
pub mod index;
pub mod ingest;
pub mod record;
