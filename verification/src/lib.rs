//! A verified core for a CRDT collaborative-document engine.
//!
//! Documents own root shared types (text, array, map, XML fragment) managed by
//! the `yrs` CRDT engine; replicas synchronise by exchanging binary state
//! vectors and updates. This crate models the synchronisation data — state
//! vectors, delete sets, snapshots and undo stack items — as plain verified
//! values with proved canonical binary and JSON codecs, and drives the engine
//! through a small set of trusted wrappers.
//!
//! Fully concurrent inserts at the same logical position resolve
//! deterministically on every replica: the run inserted by the lower client
//! identifier comes first.

pub mod assoc;
pub mod codec;
pub mod delete_set;
pub mod doc;
pub mod engine;
pub mod errors;
pub mod json;
pub mod ranges;
pub mod snapshot;
pub mod state_vector;
pub mod sticky;
pub mod undo;
pub mod wire;
