use digrag::extract::cache::{CacheStats, CachedSummary, LruCache, SummaryCache};
use std::time::Duration;

#[test]
fn test_cache_basic_operations() {
    let mut cache: LruCache<String> = LruCache::new(10, Duration::from_secs(60));

    cache.insert("key1".to_string(), "value1".to_string());
    assert_eq!(cache.get("key1"), Some("value1".to_string()));
    assert_eq!(cache.get("key2"), None);
}

#[test]
fn test_cache_eviction() {
    let mut cache: LruCache<String> = LruCache::new(2, Duration::from_secs(60));

    cache.insert("key1".to_string(), "value1".to_string());
    cache.insert("key2".to_string(), "value2".to_string());
    cache.insert("key3".to_string(), "value3".to_string());

    // One entry should have been evicted
    assert_eq!(cache.len(), 2);

    // key3 should still exist
    assert!(cache.get("key3").is_some());
}

#[test]
fn test_generate_key() {
    let key1 = LruCache::<String>::generate_key("content", "model");
    let key2 = LruCache::<String>::generate_key("content", "model");
    let key3 = LruCache::<String>::generate_key("other", "model");

    assert_eq!(key1, key2);
    assert_ne!(key1, key3);
}

#[test]
fn test_summary_cache() {
    let mut cache = SummaryCache::for_summaries();

    let summary = CachedSummary {
        text: "This is a summary".to_string(),
        model: "test-model".to_string(),
        tokens_used: Some(100),
    };

    cache.cache_summary("test content", "test-model", summary.clone());

    let retrieved = cache.get_summary("test content", "test-model");
    assert!(retrieved.is_some());
    assert_eq!(retrieved.unwrap().text, "This is a summary");
}

#[test]
fn test_cache_clear() {
    let mut cache: LruCache<String> = LruCache::new(10, Duration::from_secs(60));

    cache.insert("key1".to_string(), "value1".to_string());
    cache.insert("key2".to_string(), "value2".to_string());

    assert_eq!(cache.len(), 2);

    cache.clear();

    assert_eq!(cache.len(), 0);
    assert!(cache.is_empty());
}

#[test]
fn test_lru_cache_new() {
    let mut cache: LruCache<String> = LruCache::new(100, Duration::from_secs(3600));
    assert!(cache.is_empty());
    assert_eq!(cache.len(), 0);
}

#[test]
fn test_lru_cache_insert_and_get() {
    let mut cache: LruCache<String> = LruCache::new(100, Duration::from_secs(3600));
    cache.insert("key1".to_string(), "value1".to_string());

    assert_eq!(cache.get("key1"), Some("value1".to_string()));
    assert_eq!(cache.get("nonexistent"), None);
}

#[test]
fn test_lru_cache_eviction_at_capacity() {
    let mut cache: LruCache<String> = LruCache::new(2, Duration::from_secs(3600));

    cache.insert("key1".to_string(), "value1".to_string());
    cache.insert("key2".to_string(), "value2".to_string());
    cache.insert("key3".to_string(), "value3".to_string());

    // Should have evicted oldest entry
    assert_eq!(cache.len(), 2);
    assert!(cache.get("key3").is_some());

    let stats = cache.stats();
    assert_eq!(stats.evictions, 1);
}

#[test]
fn test_lru_cache_generate_key_deterministic() {
    let key1 = LruCache::<String>::generate_key("content", "model");
    let key2 = LruCache::<String>::generate_key("content", "model");
    let key3 = LruCache::<String>::generate_key("different", "model");

    assert_eq!(key1, key2);
    assert_ne!(key1, key3);
}

#[test]
fn test_summary_cache_for_summaries() {
    let mut cache = SummaryCache::for_summaries();
    assert!(cache.is_empty());
}

#[test]
fn test_summary_cache_cache_and_retrieve() {
    let mut cache = SummaryCache::for_summaries();

    let summary = CachedSummary {
        text: "This is a cached summary".to_string(),
        model: "cerebras/llama-3.3-70b".to_string(),
        tokens_used: Some(150),
    };

    cache.cache_summary(
        "original content",
        "cerebras/llama-3.3-70b",
        summary.clone(),
    );

    let retrieved = cache.get_summary("original content", "cerebras/llama-3.3-70b");
    assert!(retrieved.is_some());
    let retrieved = retrieved.unwrap();
    assert_eq!(retrieved.text, "This is a cached summary");
    assert_eq!(retrieved.model, "cerebras/llama-3.3-70b");
    assert_eq!(retrieved.tokens_used, Some(150));
}

#[test]
fn test_summary_cache_different_models() {
    let mut cache = SummaryCache::for_summaries();

    let summary1 = CachedSummary {
        text: "Summary from model 1".to_string(),
        model: "model1".to_string(),
        tokens_used: Some(100),
    };

    let summary2 = CachedSummary {
        text: "Summary from model 2".to_string(),
        model: "model2".to_string(),
        tokens_used: Some(200),
    };

    cache.cache_summary("same content", "model1", summary1);
    cache.cache_summary("same content", "model2", summary2);

    // Different models should have different cache entries
    let retrieved1 = cache.get_summary("same content", "model1");
    let retrieved2 = cache.get_summary("same content", "model2");

    assert!(retrieved1.is_some());
    assert!(retrieved2.is_some());
    assert_eq!(retrieved1.unwrap().text, "Summary from model 1");
    assert_eq!(retrieved2.unwrap().text, "Summary from model 2");
}

#[test]
fn test_summary_cache_miss() {
    let mut cache = SummaryCache::for_summaries();

    let retrieved = cache.get_summary("uncached content", "any-model");
    assert!(retrieved.is_none());
}

#[test]
fn test_cached_summary_clone() {
    let summary = CachedSummary {
        text: "Test summary".to_string(),
        model: "test-model".to_string(),
        tokens_used: Some(50),
    };

    let cloned = summary.clone();
    assert_eq!(summary.text, cloned.text);
    assert_eq!(summary.model, cloned.model);
    assert_eq!(summary.tokens_used, cloned.tokens_used);
}

#[test]
fn test_cache_stats_default() {
    let stats = CacheStats::default();
    assert_eq!(stats.hits, 0);
    assert_eq!(stats.misses, 0);
    assert_eq!(stats.evictions, 0);
    assert_eq!(stats.expirations, 0);
}

