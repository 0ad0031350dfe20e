//! Cortex: a local, offline personal knowledge indexer.
//!
//! The crate models the indexing, search and export pipeline of a personal
//! document index: scanning directories for supported files, extracting text
//! from several document formats, maintaining a metadata store with a
//! full-text index and a vector store, answering lexical queries, and
//! packaging a slice of the index into portable exchange formats.
//!
//! All state-bearing logic lives here with verified contracts; the thin
//! process shell (filesystem walking, file I/O, clocks) hands this library
//! plain values and takes plain values back.

pub mod embed;
pub mod error;
pub mod export;
pub mod ext;
pub mod extract;
pub mod markdown;
pub mod path;
pub mod pipeline;
pub mod query;
pub mod scanner;
pub mod search;
pub mod stem;
pub mod store;
pub mod text;
pub mod types;
pub mod validate;
