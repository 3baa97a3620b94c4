//! Verified core of a columnar IPC file writer.
//!
//! The crate covers the pieces that must agree byte-for-byte with what an
//! independent reader computes: message framing, dictionary deduplication,
//! block/offset bookkeeping, and the writer state machine that sequences
//! header, schema, data messages, footer and trailing magic.

pub mod array;
pub mod compute;
pub mod datatypes;
pub mod dictionary;
pub mod encode;
pub mod error;
pub mod flat;
pub mod message;
pub mod sink;

pub use error::Error;
