//! An embedded, append-mostly store for timestamped records, partitioned
//! into time-bucketed shards ("epochs"). Each shard keeps its records in a
//! data log and an ordered index from time to packed extent; a router keeps
//! the sorted list of shard ids and one hot shard. The library makes every
//! decision and produces every byte; the caller moves bytes to and from
//! files.

pub mod codec;
pub mod config;
pub mod epoch;
pub mod epoch_bridge;
pub mod extent;
pub mod frame;
pub mod index;
pub mod path_builder;
pub mod snapshot;

pub use epoch::{Epoch, EpochError};
pub use epoch_bridge::{EpochBridge, QuotickError};
pub use extent::FrameExtent;
pub use frame::{Frame, Tick};
pub use index::{FrameIndex, FrameSetIndexIter};
pub use path_builder::QuotickPathBuilder;
pub use snapshot::BackingFileError;
