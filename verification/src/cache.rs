pub mod fifo_cache;
pub mod key;
pub mod laws;
pub mod lfu_cache;
pub mod lru_cache;
pub mod model;
