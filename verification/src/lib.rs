//! Write path for a partitioned columnar table.
//!
//! A partition splitter groups the rows of a columnar batch by a partition
//! key derived from declared transforms, a fanout writer routes each row
//! group to a lazily created per-partition inner writer, and an optional
//! decorator mirrors the count of open partitions into an external gauge.

pub mod batch;
pub mod error;
pub mod gauge;
pub mod metrics;
pub mod partition;
pub mod splitter;
pub mod term;
pub mod writer;
