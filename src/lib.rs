//! A cluster-aware registry of named expiring caches: per-cache eviction by
//! lifetime or capacity under a hard cap, peer health from heartbeats, a
//! watchdog verdict over it, and last-writer-wins propagation of changes.

pub mod cache;
pub mod health;
pub mod lifecycle;
pub mod propagate;
pub mod registry;
