//! An embeddable, clustered in-memory key-value cache engine.
//!
//! Values live under a two-level namespace (cluster, then key), may carry a
//! time-to-live, are accounted against a memory ceiling that is enforced by
//! eviction, and are journalled as text commands that can be replayed into an
//! empty engine.

pub mod assoc;
pub mod cache;
pub mod convert;
pub mod creds;
pub mod crypto;
pub mod jobs;
pub mod laws;
pub mod memory_handling;
pub mod outside;
pub mod persistent;
pub mod public_api;
pub mod results;
