use wiki_engine::cache::WikiEngineCache;
use wiki_engine::types::WikipediaPage;

fn page(title: &str, n: u64) -> WikipediaPage {
    WikipediaPage {
        title: String::from(title),
        extract: String::from("text"),
        url: format!("https://example.org/{}", title),
        page_id: n,
    }
}

#[test]
fn cached_page_is_returned_until_it_expires() {
    let mut cache = WikiEngineCache::with_config(100, 100, 10);
    cache.cache_wikipedia_page(String::from("bridge"), page("bridge", 1), 0);
    let hit = cache.get_wikipedia_page("bridge", 50).expect("fresh entry");
    assert_eq!(hit.title, "bridge");
    assert_eq!(hit.page_id, 1);
    // Reading an expired entry reports a miss and removes the entry.
    let miss = cache.get_wikipedia_page("bridge", 101);
    assert!(miss.is_none());
    assert_eq!(cache.get_cache_stats().wikipedia_pages_count, 0);
}

#[test]
fn writing_past_capacity_evicts_exactly_the_oldest_entry() {
    let mut cache = WikiEngineCache::with_config(10_000, 10_000, 2);
    cache.cache_wikipedia_page(String::from("a"), page("a", 1), 10);
    cache.cache_wikipedia_page(String::from("b"), page("b", 2), 20);
    assert_eq!(cache.get_cache_stats().wikipedia_pages_count, 2);
    cache.cache_wikipedia_page(String::from("c"), page("c", 3), 30);
    assert_eq!(cache.get_cache_stats().wikipedia_pages_count, 2);
    assert!(cache.get_wikipedia_page("a", 40).is_none());
    assert!(cache.get_wikipedia_page("b", 40).is_some());
    assert!(cache.get_wikipedia_page("c", 40).is_some());
}

#[test]
fn cleanup_deletes_every_expired_entry() {
    let mut cache = WikiEngineCache::with_config(100, 1_000, 10);
    cache.cache_wikipedia_page(String::from("old"), page("old", 1), 0);
    cache.cache_wikipedia_page(String::from("new"), page("new", 2), 500);
    cache.cache_principles(String::from("kept"), Vec::new(), 0);
    cache.cleanup_expired(550);
    let stats = cache.get_cache_stats();
    assert_eq!(stats.wikipedia_pages_count, 1);
    assert_eq!(stats.principles_count, 1);
    assert!(cache.get_wikipedia_page("new", 560).is_some());
}

#[test]
fn stats_use_fixed_per_entry_weights() {
    let mut cache = WikiEngineCache::new();
    cache.cache_wikipedia_page(String::from("a"), page("a", 1), 0);
    cache.cache_principles(String::from("a"), Vec::new(), 0);
    let stats = cache.get_cache_stats();
    assert_eq!(stats.wikipedia_pages_count, 1);
    assert_eq!(stats.principles_count, 1);
    assert_eq!(stats.analysis_nodes_count, 0);
    assert_eq!(stats.total_memory_usage, 1024 + 512);
}

#[test]
fn clear_all_empties_every_store() {
    let mut cache = WikiEngineCache::new();
    cache.cache_wikipedia_page(String::from("a"), page("a", 1), 0);
    cache.clear_all();
    let stats = cache.get_cache_stats();
    assert_eq!(stats.wikipedia_pages_count, 0);
    assert_eq!(stats.principles_count, 0);
    assert_eq!(stats.analysis_nodes_count, 0);
}

#[test]
fn analysis_cache_keys_encode_the_request() {
    let cache = WikiEngineCache::new();
    assert_eq!(
        cache.generate_analysis_cache_key("bridge", 2, 5),
        "analysis:bridge:2:5"
    );
    assert_eq!(
        cache.generate_analysis_cache_key("x", 255, 0),
        "analysis:x:255:0"
    );
    assert_eq!(
        cache.generate_analysis_cache_key("x", 10, 100),
        "analysis:x:10:100"
    );
}

#[test]
fn replacing_a_key_keeps_the_store_size() {
    let mut cache = WikiEngineCache::with_config(10_000, 10_000, 5);
    cache.cache_wikipedia_page(String::from("a"), page("a", 1), 0);
    cache.cache_wikipedia_page(String::from("a"), page("a", 9), 10);
    assert_eq!(cache.get_cache_stats().wikipedia_pages_count, 1);
    let hit = cache.get_wikipedia_page("a", 20).unwrap();
    assert_eq!(hit.page_id, 9);
}
