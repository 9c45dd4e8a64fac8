//! A persistent key-value store kept as an append-only log of records, with
//! an in-memory index from each key to its latest record and a bounded cache
//! of decoded values.
//!
//! The log is held here as its bytes; the program around the library reads
//! them from disk at open and writes back what the store appended or rewrote.

pub mod codec;
pub mod replay;
pub mod cache;
pub mod error;
pub mod store;

pub use error::{KvError, Result};
pub use store::{KvStore, CACHE_CAPACITY, COMPACTION_THRESHOLD};
