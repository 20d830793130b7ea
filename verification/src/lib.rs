//! Core of a per-region change-data-capture (CDC) delegate for a
//! transactional key-value store, together with the region snapshot-apply
//! worker's bookkeeping.
//!
//! The crate verifies the data-path logic: memcmp key encoding and
//! timestamped keys, the in-flight-lock resolver that produces a monotonic
//! resolved timestamp, the delegate state machine that turns committed
//! commands into ordered event streams, the pending-delete-range registry,
//! and the admission-controlled apply queue.

pub mod cmd;
pub mod codec;
pub mod delegate;
pub mod errors;
pub mod events;
pub mod key;
pub mod mutation;
pub mod pending_ranges;
pub mod resolver;
pub mod sink;
pub mod text;
pub mod timestamp;
pub mod txn;
pub mod worker;
