//! A tiered block-state cache: full per-block state snapshots are kept in
//! memory up to an adaptive ceiling, spilled to a snapshot store under
//! pressure, and purged for good past a fixed retention window.
//!
//! `cache` holds the cache itself, `state` the account/state-handle values,
//! `store` the snapshot store, `model` the ghost model the contracts speak
//! of, `assoc` the keyed-sequence helpers, and `laws` the proofs of the
//! cache's global properties.

pub mod assoc;
pub mod cache;
pub mod laws;
pub mod model;
pub mod state;
pub mod store;
