pub mod kv_cache;

pub use kv_cache::{KvCache, KvCacheError, LayerKvCache};
