use proviz::cache::{normalize, CacheEntry, DocCache, QueryCache};
use proviz::models::{ExtraSnippet, FullContent, SearchResult};

const NOW: u64 = 1_700_000_000_000;
const HOUR_MS: u64 = 3_600_000;

fn entry(slug: &str, key_id: &str, stored_at_ms: u64, ttl_ms: u64) -> CacheEntry {
    CacheEntry {
        results: vec![],
        provider_slug: slug.to_string(),
        api_key_id: key_id.to_string(),
        stored_at_ms,
        ttl_ms,
    }
}

fn body(text: &str) -> FullContent {
    FullContent { text: text.to_string(), format: "markdown".to_string(), length: text.len() }
}

#[test]
fn test_cache_key_deterministic() {
    let k1 = QueryCache::cache_key("rust", Some("en"), Some("us"), None, "");
    let k2 = QueryCache::cache_key("rust", Some("en"), Some("us"), None, "");
    assert_eq!(k1, k2);

    let k3 = QueryCache::cache_key("rust", Some("fr"), Some("us"), None, "");
    assert_ne!(k1, k3);

    let k4 = QueryCache::cache_key("rust", Some("en"), Some("us"), None, "full_content=markdown");
    assert_ne!(k1, k4, "enrichment must be folded into the key");
}

#[test]
fn test_cache_hit_and_evict() {
    let mut cache = QueryCache::new();
    let key = "testkey".to_string();
    cache.set(key.clone(), entry("brave", "id", NOW, HOUR_MS));
    assert!(cache.get(&key, NOW).is_some());
}

#[test]
fn test_cache_key_stable_across_calls() {
    let k1 = QueryCache::cache_key("rust programming", Some("en"), Some("us"), Some("mygroup"), "");
    let k2 = QueryCache::cache_key("rust programming", Some("en"), Some("us"), Some("mygroup"), "");
    assert_eq!(k1, k2);
}

#[test]
fn test_cache_key_differs_by_query() {
    let k1 = QueryCache::cache_key("rust", Some("en"), None, None, "");
    let k2 = QueryCache::cache_key("python", Some("en"), None, None, "");
    assert_ne!(k1, k2);
}

#[test]
fn test_cache_key_differs_by_language() {
    let k1 = QueryCache::cache_key("rust", Some("en"), None, None, "");
    let k2 = QueryCache::cache_key("rust", Some("fr"), None, None, "");
    assert_ne!(k1, k2);
}

#[test]
fn test_cache_key_differs_by_group() {
    let k1 = QueryCache::cache_key("rust", None, None, Some("group-a"), "");
    let k2 = QueryCache::cache_key("rust", None, None, Some("group-b"), "");
    assert_ne!(k1, k2);
}

#[test]
fn test_cache_key_differs_by_enrichment() {
    let k1 = QueryCache::cache_key("rust", None, None, None, "");
    let k2 = QueryCache::cache_key("rust", None, None, None, "extra_snippets=true");
    assert_ne!(k1, k2);
}

#[test]
fn test_set_and_get_hit() {
    let mut cache = QueryCache::new();
    let key = "testkey".to_string();
    cache.set(key.clone(), entry("brave", "key-id", NOW, HOUR_MS));
    let got = cache.get(&key, NOW).unwrap();
    assert_eq!(got.provider_slug, "brave");
}

#[test]
fn test_expired_entry_not_returned() {
    let mut cache = QueryCache::new();
    let key = "expired-key".to_string();
    // stored two hours ago with one hour to live: expired an hour ago
    cache.set(key.clone(), entry("brave", "key-id", NOW - 2 * HOUR_MS, HOUR_MS));
    assert!(cache.get(&key, NOW).is_none());
}

#[test]
fn test_evict_expired_clears_cache() {
    let mut cache = QueryCache::new();
    cache.set("fresh".into(), entry("brave", "k", NOW, HOUR_MS));
    cache.set("stale".into(), entry("tavily", "k", NOW - 2 * HOUR_MS, HOUR_MS));
    assert_eq!(cache.len(), 2);
    cache.evict_expired(NOW);
    assert_eq!(cache.len(), 1);
}

#[test]
fn test_doc_cache_set_and_get_hit() {
    let mut cache = DocCache::new();
    cache.set("https://example.com/article", Some(body("body")), None, HOUR_MS, NOW);
    let got = cache.get("https://example.com/article", NOW).unwrap();
    assert_eq!(got.full_content.unwrap().text, "body");
}

#[test]
fn test_doc_cache_normalizes_trailing_slash_and_fragment() {
    let mut cache = DocCache::new();
    cache.set("https://example.com/article/", Some(body("body")), None, HOUR_MS, NOW);
    assert!(cache.get("https://example.com/article#section-2", NOW).is_some());
}

#[test]
fn test_doc_cache_skips_empty_entry() {
    let mut cache = DocCache::new();
    cache.set("https://example.com/x", None, None, HOUR_MS, NOW);
    assert!(cache.is_empty());
}

#[test]
fn test_doc_cache_expired_entry_not_returned() {
    let mut cache = DocCache::new();
    let key = "https://example.com/stale";
    cache.set(key, Some(body("body")), None, HOUR_MS, NOW - 2 * HOUR_MS);
    assert!(cache.get(key, NOW).is_none());
}

#[test]
fn cache_key_is_lowercase_sha256_hex() {
    let k = QueryCache::cache_key("", None, None, None, "");
    // SHA-256 of four zero bytes
    assert_eq!(k, "df3f619804a92fdb4057192dc43dd748ea778adc52bc498ce80524c014b81119");
    assert_eq!(k.len(), 64);
    assert!(k.chars().all(|c| c.is_ascii_hexdigit() && !c.is_ascii_uppercase()));
}

#[test]
fn absent_and_empty_parts_share_a_key() {
    let a = QueryCache::cache_key("q", None, Some("us"), None, "");
    let b = QueryCache::cache_key("q", Some(""), Some("us"), Some(""), "");
    assert_eq!(a, b);
}

#[test]
fn entry_expires_exactly_at_its_ttl() {
    let e = entry("s", "k", NOW, 1_000);
    assert!(!e.is_expired(NOW));
    assert!(!e.is_expired(NOW + 999));
    assert!(e.is_expired(NOW + 1_000));
    // a clock reading before the store time counts as no time elapsed
    assert!(!e.is_expired(NOW - 5));
    assert!(entry("s", "k", NOW, 0).is_expired(NOW - 5));
}

#[test]
fn expired_get_removes_the_entry() {
    let mut cache = QueryCache::new();
    cache.set("k".into(), entry("s", "id", NOW, 10));
    assert_eq!(cache.len(), 1);
    assert!(cache.get("k", NOW + 10).is_none());
    assert_eq!(cache.len(), 0);
    assert!(cache.get("missing", NOW).is_none());
}

#[test]
fn cached_results_come_back_intact() {
    let mut cache = QueryCache::new();
    let r = SearchResult {
        url: "https://a.test/1".into(),
        title: "A".into(),
        snippet: "s".into(),
        domain: "a.test".into(),
        rank: 0,
        published_date: Some("2024-01-01".into()),
        language: None,
        full_content: Some(body("b")),
        extra_snippets: Some(vec![ExtraSnippet { text: "x".into() }]),
    };
    let mut e = entry("brave", "id", NOW, HOUR_MS);
    e.results = vec![r];
    cache.set("q".into(), e);
    let got = cache.get("q", NOW + 1).unwrap();
    assert_eq!(got.results.len(), 1);
    assert_eq!(got.results[0].url, "https://a.test/1");
    assert_eq!(got.results[0].full_content.as_ref().unwrap().text, "b");
    assert_eq!(got.results[0].extra_snippets.as_ref().unwrap()[0].text, "x");
    assert_eq!(got.api_key_id, "id");
}

#[test]
fn normalize_strips_fragment_then_trailing_slashes() {
    assert_eq!(normalize("https://e.com/a/#frag"), "https://e.com/a");
    assert_eq!(normalize("https://e.com/a//"), "https://e.com/a");
    assert_eq!(normalize("https://e.com/a#x/y/"), "https://e.com/a");
    assert_eq!(normalize("https://e.com/a?q=1"), "https://e.com/a?q=1");
    assert_eq!(normalize("#only"), "");
    assert_eq!(normalize(normalize("https://e.com/a/#b").as_str()), normalize("https://e.com/a/#b"));
}

#[test]
fn doc_cache_keeps_snippets_only_entries() {
    let mut cache = DocCache::new();
    cache.set("https://e.com/p", None, Some(vec![ExtraSnippet { text: "chunk".into() }]), HOUR_MS, NOW);
    assert_eq!(cache.len(), 1);
    let got = cache.get("https://e.com/p/", NOW).unwrap();
    assert!(got.full_content.is_none());
    assert_eq!(got.extra_snippets.unwrap()[0].text, "chunk");
    cache.evict_expired(NOW + HOUR_MS);
    assert!(cache.is_empty());
}

#[test]
fn cache_key_is_sixty_four_hex_digits() {
    let a = QueryCache::cache_key("rust programming", Some("en"), Some("us"), Some("mygroup"), "");
    assert_eq!(a.len(), 64);
    assert!(a.chars().all(|c| c.is_ascii_digit() || ('a'..='f').contains(&c)));
}
