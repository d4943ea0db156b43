use mini_llm::cache::{KvCache, KvCacheError, LayerKvCache};
use mini_llm::tensor::TensorError;

#[test]
fn test_layer_cache_append_ranges() {
    let mut layer = LayerKvCache::new(8, 2, 4);
    assert_eq!(layer.capacity(), 8);
    assert_eq!(layer.total_elements(), 64);
    assert_eq!(layer.append(3).unwrap(), (0, 24));
    assert_eq!(layer.current_position(), 3);
    assert_eq!(layer.append(2).unwrap(), (24, 16));
    assert_eq!(layer.stored_elements(), 40);
    assert_eq!(
        layer.append(4),
        Err(KvCacheError::CapacityExceeded { requested: 9, capacity: 8 })
    );
    assert_eq!(layer.current_position(), 5);
    layer.reset();
    assert_eq!(layer.current_position(), 0);
    assert_eq!(layer.append(8).unwrap(), (0, 64));
}

#[test]
fn test_kv_cache_layers() {
    let mut cache = KvCache::new(3, 16, 2, 8);
    assert_eq!(cache.layers.len(), 3);
    assert_eq!(cache.current_position(), 0);
    cache.layers[0].append(5).unwrap();
    assert_eq!(cache.current_position(), 5);
    cache.reset();
    assert_eq!(cache.current_position(), 0);
    assert_eq!(KvCache::estimate_memory_bytes(2, 16, 2, 8, 4), 4096);
    assert_eq!(KvCache::new(0, 4, 1, 1).current_position(), 0);
}

#[test]
fn test_cache_error_from_tensor_error() {
    let e: KvCacheError = TensorError::EmptyTensor.into();
    assert_eq!(e, KvCacheError::TensorErr(TensorError::EmptyTensor));
}

#[test]
fn test_cache_error_message() {
    let e = KvCacheError::CapacityExceeded { requested: 9, capacity: 8 };
    assert_eq!(
        e.message(),
        "KV Cache capacity exceeded: requested sequence length 9, max capacity is 8"
    );
}
