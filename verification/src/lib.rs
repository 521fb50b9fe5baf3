//! A verified client library for a key-value store with per-key attributes,
//! per-key subkey trees, and FIFO/LIFO queue engines layered on the namespace.
//!
//! The library models the store's data as a single mutable namespace of
//! entries, each optionally encrypted and carrying an optional expiration,
//! plus attribute maps and ordered subkey relations per key. Two queue
//! abstractions (a plain value queue and a key-value queue) deliver elements
//! in FIFO or LIFO order. Every operation's behaviour is stated as a contract
//! over a mathematical model and proved.

pub mod errors;
pub mod model;
pub mod order;
pub mod store;
pub mod queue;
pub mod keyqueue;
pub mod iter;

pub use errors::DebugLevel;
pub use errors::DumpLevel;
pub use errors::K2hError;
pub use store::K2hash;
pub use queue::BaseQueue;
pub use queue::Queue;
pub use queue::QueueBuilder;
pub use keyqueue::KeyQueue;
pub use keyqueue::KeyQueueBuilder;
pub use iter::K2hashKey;
