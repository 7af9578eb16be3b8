//! Mapping between entities and the keys of an ordered, byte-keyed store:
//! composite keys rendered from templates, prefix scans decoded back into
//! key components, and entities rebuilt field by field from stored payloads.

pub mod key;
pub mod query;
pub mod json;
pub mod block_message;
pub mod laws;
