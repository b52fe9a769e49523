//! Message envelopes: typed payloads with identity and metadata.
pub mod message;
pub mod metadata;
