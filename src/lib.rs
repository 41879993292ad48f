//! Buffered hashing facilities.
//!
//! A partitioned hasher consumes its input in fixed-size partitions of `S`
//! bytes and folds the final, shorter tail in when the digest is taken.
//! [`PartitionedHasher`] drives such a hasher from an incremental byte
//! stream whose writes may have any length, carrying the bytes that do not
//! yet fill a partition from one write to the next.
pub mod partitioned;

pub use partitioned::PartitionedHasher;
