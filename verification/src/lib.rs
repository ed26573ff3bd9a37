//! An authenticated journal record store.
//!
//! Each record is owned by exactly one principal, addressed by the composite
//! key of its title and its owner's public key, and guarded by size limits
//! and ownership checks. The store exposes three operations — create, update
//! and delete — whose behaviour, error precedence and atomicity are stated in
//! their contracts and verified.

pub mod codec;
pub mod entry;
pub mod store;
