//! A feature-toggle directory: named boolean flags, each optionally scoped to a
//! service, kept in a store with seed and overwrite semantics, and announced
//! to a message bus after they are written.

pub mod durable;
pub mod filters;
pub mod laws;
pub mod messaging;
pub mod storage;
pub mod wire;
