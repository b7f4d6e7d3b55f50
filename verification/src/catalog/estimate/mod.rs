//! What loading an entry is expected to cost, worked out from its files.
//!
//! The figure is the sum of four terms, in bytes, rounded up to whole
//! mebibytes: the **weights** (every file the entry names); the **cache**,
//! for the model and for a draft that keeps one of its own, keys and values
//! for every layer at the configured context; **fragmentation**, five percent
//! of the weights; and a fixed **overhead** of 1024 MiB. An entry that pins
//! every layer to the processor is charged the overhead and nothing else. A
//! file whose metadata cannot be read is estimated from its size alone: a
//! quarter again on top, plus the overhead.
//!
//! Every term errs high on purpose. An estimate above the cost leaves memory
//! idle; one below it admits a model the machine cannot hold.

pub mod derived;
pub mod served;
pub mod shard;

pub use derived::{derive_estimate, shards_to_count, Basis, CacheShape, Derived, Files};
pub use shard::{other_shards, shard_of, Shard};
