//! An in-memory associative container: a hash table mapping unique keys to
//! values, with insertion, lookup, removal and membership testing, and
//! automatic capacity growth.
//!
//! The table stores its entries in a sequence of buckets (separate
//! chaining). Every operation is specified against an abstract `Map` from
//! key views to values; the bucket layout, the load-factor-triggered resize
//! and the key-equality scans are verified against that model.

pub mod chained;
pub mod key;
pub mod laws;
pub mod separate_chaining;
