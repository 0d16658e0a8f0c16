//! A first-in-first-out view of the bounded cache: under least-recently-used
//! eviction, keys that are written once and never read back leave in
//! insertion order, so the same type serves first-in-first-out workloads.

pub use crate::cache::lru_cache::LRUCache;
