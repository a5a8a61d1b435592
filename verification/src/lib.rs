//! A certified content store: a mapping from path to content together with a
//! commitment structure that can produce a compact inclusion proof for any
//! single path against one published root digest.
//!
//! The commitment tree ([`tree`]) keeps one 32-byte content hash per path
//! key and derives a deterministic, insertion-order-independent merkle root.
//! The store ([`store`]) keeps the content records in lock-step with the
//! tree, wraps the root under a namespace label for publication, and builds
//! pruned proofs ([`witness`]) serialized to a canonical binary form
//! ([`encoding`]).  [`loader`] populates the store from bundled resources
//! and synthesized assets; [`laws`] states and proves the store's global
//! guarantees.

pub mod encoding;
pub mod hashes;
pub mod laws;
pub mod loader;
pub mod mime;
pub mod numtext;
pub mod store;
pub mod tree;
pub mod witness;
