//! Client engine for an append-only, category-partitioned message log.
//!
//! The crate provides a verified in-memory log store with optimistic
//! concurrency control on append, an entity store that reconstructs
//! entity state by replaying a stream of records through a projector
//! (memoized by a pluggable cache), a position store that records a
//! consumer's read progress on a derived stream, and a polling consumer
//! with pluggable backoff and cooperative shutdown.
pub mod consumer;
pub mod controls;
pub mod entity_store;
pub mod error;
pub mod handler;
pub mod identity;
pub mod message_store;
pub mod messaging;
pub mod position_store;
pub mod stream_name;
pub mod text;
pub mod write_message;
