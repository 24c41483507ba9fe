use proviz::cache::{CacheEntry, DocCache, QueryCache};
use proviz::config::{Config, EnvVars};
use proviz::content::ExtractedDoc;
use proviz::models::{ApiKey, Candidate, ExtraSnippet, FullContent, Group, Provider, SearchResult};
use proviz::rate_limit::{ErrorType, KeyState, RateLimitState, UsageTracker};
use proviz::seed::{
    configured_keys, existing_provider_id, key_env_name, keys_to_add, provider_step, seed_defs, seed_provider, ProviderStep,
};
use proviz::service::{
    apply_report, cached_chain, count_outcomes, default_n, enrichment_cache_key, group_all_no_cache, group_id_by_slug,
    cached_meta, key_health_state, member_priority, merge_docs, compose_contents, new_group, normalize_format, prepare_urls, requested_urls, search_settings,
    read_cached, serve_from_cache, should_cache, store_results, stats_response, sync_doc_cache, AddMemberRequest, CreateGroupRequest, ReportRequest,
};
use proviz::stats::StatsTracker;

const NOW: u64 = 1_700_000_000_000;
const HOUR_MS: u64 = 3_600_000;

fn config() -> Config {
    Config::from_vars(EnvVars {
        port: None,
        database_url: None,
        database_path: None,
        profiles_path: None,
        secrets_dir: None,
        admin_token: None,
        log_level: None,
        log_format: None,
        cache_ttl_secs: None,
        doc_cache_ttl_secs: None,
        max_fallbacks: None,
    })
}

fn body(text: &str, format: &str) -> FullContent {
    FullContent { text: text.to_string(), format: format.to_string(), length: text.len() }
}

fn result(url: &str, content: Option<FullContent>) -> SearchResult {
    SearchResult {
        url: url.to_string(),
        title: "t".into(),
        snippet: "s".into(),
        domain: "d".into(),
        rank: 0,
        published_date: None,
        language: None,
        full_content: content,
        extra_snippets: None,
    }
}

fn candidate(slug: &str) -> Candidate {
    Candidate {
        provider: Provider {
            id: slug.into(),
            slug: slug.into(),
            name: slug.into(),
            base_url: None,
            is_active: true,
            priority: 0,
            avg_latency_ms: None,
            notes: None,
            created_at: String::new(),
            no_cache: false,
        },
        api_key: ApiKey {
            id: format!("k-{slug}"),
            provider_id: slug.into(),
            label: slug.into(),
            key_ref: "R".into(),
            is_active: true,
            rpm_limit: None,
            rpd_limit: None,
            last_used_at: None,
            created_at: String::new(),
        },
        member_priority: None,
    }
}

fn doc(url: &str, source: &str, content: Option<FullContent>) -> ExtractedDoc {
    let error = if content.is_none() { Some("failed".to_string()) } else { None };
    ExtractedDoc { url: url.into(), title: None, published_date: None, content, source: source.into(), error }
}

#[test]
fn search_request_settings() {
    let c = config();
    assert_eq!(default_n(), 10);
    let s = search_settings(0, None, false, false, None, None, &c);
    assert_eq!((s.n, s.cache_ttl_secs, s.timeout_ms, s.max_fallbacks), (1, 3600, 8_000, 3));
    assert!(!s.wants_enrichment);
    let s = search_settings(500, Some(0), true, false, None, Some(1), &c);
    assert_eq!((s.n, s.cache_ttl_secs, s.timeout_ms, s.max_fallbacks), (50, 0, 10_000, 1));
    let s = search_settings(20, None, false, true, Some(1234), None, &c);
    assert_eq!((s.n, s.timeout_ms), (20, 1234));
    assert!(s.wants_enrichment);
}

#[test]
fn enrichment_key_folds_every_option() {
    assert_eq!(enrichment_cache_key(false, None, Some(3), Some("0.5"), &vec!["a.com".into()], &vec![]), "");
    let k = enrichment_cache_key(
        true,
        Some("markdown"),
        Some(3),
        Some("0.5"),
        &vec!["a.com".into(), "b.com".into()],
        &vec!["c.com".into()],
    );
    assert_eq!(k, "es=true&fc=markdown&ms=3&mn=0.5&inc=a.com,b.com&exc=c.com");
    let k = enrichment_cache_key(false, Some("html"), None, None, &vec![], &vec![]);
    assert_eq!(k, "es=false&fc=html&ms=&mn=&inc=&exc=");
}

#[test]
fn cache_decisions() {
    let no_cache = vec!["ddg-yandex".to_string()];
    assert!(group_all_no_cache(&vec![candidate("ddg-yandex")], &no_cache));
    assert!(!group_all_no_cache(&vec![candidate("ddg-yandex"), candidate("brave")], &no_cache));
    assert!(!group_all_no_cache(&vec![], &no_cache));
    assert!(should_cache(3600, &no_cache, "brave"));
    assert!(!should_cache(3600, &no_cache, "ddg-yandex"));
    assert!(!should_cache(0, &no_cache, "brave"));
    assert_eq!(cached_chain("brave"), "brave:cached");
}

#[test]
fn doc_cache_shares_content_between_searches() {
    let mut docs = DocCache::new();
    let first = vec![result("https://a.test/p/", Some(body("page", "markdown"))), result("https://b.test/", None)];
    let out = sync_doc_cache(first, &mut docs, HOUR_MS, NOW);
    assert_eq!(out.len(), 2);
    assert!(out[1].full_content.is_none());
    assert_eq!(docs.len(), 1);

    // a later, different search surfacing the same page gets its content back
    let second = vec![result("https://a.test/p#top", None)];
    let out = sync_doc_cache(second, &mut docs, HOUR_MS, NOW + 10);
    assert_eq!(out[0].full_content.as_ref().unwrap().text, "page");

    // once expired, nothing is filled and the entry goes
    let third = vec![result("https://a.test/p", None)];
    let out = sync_doc_cache(third, &mut docs, HOUR_MS, NOW + HOUR_MS);
    assert!(out[0].full_content.is_none());
    assert!(docs.is_empty());
}

#[test]
fn doc_cache_fills_snippets_too() {
    let mut docs = DocCache::new();
    let mut r = result("https://s.test/x", None);
    r.extra_snippets = Some(vec![ExtraSnippet { text: "chunk".into() }]);
    sync_doc_cache(vec![r], &mut docs, HOUR_MS, NOW);
    let out = sync_doc_cache(vec![result("https://s.test/x/", None)], &mut docs, HOUR_MS, NOW);
    assert_eq!(out[0].extra_snippets.as_ref().unwrap()[0].text, "chunk");
    assert!(out[0].full_content.is_none());
}

#[test]
fn reports_cool_down_and_sync() {
    let mut rl = RateLimitState::new();
    let mut usage = UsageTracker::new();
    for i in 0..4 {
        usage.reserve("k", NOW + i);
    }
    let req = ReportRequest {
        api_key_id: "k".into(),
        outcome: "rate_limit".into(),
        error_type: Some("rpd".into()),
        remaining_requests: Some(9),
        limit_requests: Some(10),
        sync_limits: true,
    };
    let (resp, et) = apply_report(&req, &mut rl, &mut usage, NOW);
    assert!(resp.ok);
    assert_eq!(et, Some(ErrorType::Rpd));
    assert_eq!(rl.cooldown_remaining_ms("k", NOW), 3_600_000);
    assert_eq!(usage.rpm_count("k", NOW + 10), 1);

    let ok = ReportRequest {
        api_key_id: "k2".into(),
        outcome: "ok".into(),
        error_type: Some("rpm".into()),
        remaining_requests: None,
        limit_requests: None,
        sync_limits: true,
    };
    let (_, et) = apply_report(&ok, &mut rl, &mut usage, NOW);
    assert_eq!(et, None);
    assert!(!rl.is_limited("k2", NOW));

    let unknown = ReportRequest {
        api_key_id: "k3".into(),
        outcome: "error".into(),
        error_type: Some("weird".into()),
        remaining_requests: None,
        limit_requests: None,
        sync_limits: false,
    };
    let (_, et) = apply_report(&unknown, &mut rl, &mut usage, NOW);
    assert_eq!(et, Some(ErrorType::Error));
}

#[test]
fn health_and_stats_answers() {
    assert_eq!(key_health_state(KeyState::Available), ("ok", 0));
    assert_eq!(key_health_state(KeyState::Cooldown(1500)), ("cooldown", 1500));
    assert_eq!(key_health_state(KeyState::Disabled), ("disabled", 0));

    let mut stats = StatsTracker::new();
    stats.record_search("brave", false, 100, NOW - 1_000_000);
    stats.record_search("brave", true, 0, NOW - 1_000);
    stats.record_search("tavily", false, 300, NOW - 500);
    let r = stats_response(&stats, NOW);
    assert_eq!((r.window_5m.searches, r.window_5m.errors), (2, 1));
    assert_eq!(r.by_provider.len(), 2);
    assert_eq!(r.by_provider[0].0, "brave");
    assert_eq!((r.by_provider[0].1.searches, r.by_provider[0].1.errors), (2, 1));
    assert_eq!(r.by_provider[0].1.avg_latency_ms, Some(50));
    assert_eq!(r.by_provider[1].1.avg_latency_ms, Some(300));
}

#[test]
fn content_formats() {
    assert_eq!(normalize_format(None).unwrap(), "markdown");
    assert_eq!(normalize_format(Some("html")).unwrap(), "html");
    assert_eq!(normalize_format(Some("text")).unwrap(), "text");
    let e = normalize_format(Some("pdf")).unwrap_err();
    assert_eq!(e.status, 404);
    assert_eq!(e.message, "unsupported format 'pdf' (expected markdown|html|text)");
}

#[test]
fn content_urls_are_trimmed_deduped_and_capped() {
    let urls = vec![
        " https://a.test ".to_string(),
        "".to_string(),
        "https://a.test".to_string(),
        "\thttps://b.test\n".to_string(),
        "   ".to_string(),
    ];
    assert_eq!(prepare_urls(&urls), vec!["https://a.test".to_string(), "https://b.test".to_string()]);
    let many: Vec<String> = (0..60).map(|i| format!("https://m.test/{i}")).collect();
    let kept = prepare_urls(&many);
    assert_eq!(kept.len(), 50);
    assert_eq!(kept[49], "https://m.test/49");
}

#[test]
fn content_served_from_cache_then_merged() {
    let mut docs = DocCache::new();
    docs.set("https://c.test/1", Some(body("cached", "markdown")), None, HOUR_MS, NOW);
    docs.set("https://c.test/2", Some(body("<p>", "html")), None, HOUR_MS, NOW);
    let urls = vec!["https://c.test/1".to_string(), "https://c.test/2".to_string(), "https://c.test/3".to_string()];

    let (served, to_fetch) = serve_from_cache(&urls, "markdown", false, &mut docs, NOW + 1);
    assert_eq!(served.len(), 1);
    assert_eq!(served[0].source, "cache");
    assert_eq!(served[0].content.as_ref().unwrap().text, "cached");
    assert_eq!(to_fetch, vec!["https://c.test/2".to_string(), "https://c.test/3".to_string()]);

    let (served_fresh, to_fetch_fresh) = serve_from_cache(&urls, "markdown", true, &mut docs, NOW + 1);
    assert!(served_fresh.is_empty());
    assert_eq!(to_fetch_fresh.len(), 3);

    let fetched = vec![
        doc("https://c.test/3", "prov", Some(body("three", "markdown"))),
        doc("https://c.test/2", "", None),
    ];
    let merged = merge_docs(&urls, served, fetched);
    let order: Vec<&str> = merged.iter().map(|d| d.url.as_str()).collect();
    assert_eq!(order, vec!["https://c.test/1", "https://c.test/2", "https://c.test/3"]);
    assert_eq!(count_outcomes(&merged), (2, 1));
}

#[test]
fn admin_helpers() {
    let g = new_group("id-1".into(), CreateGroupRequest { slug: "fast".into(), name: "Fast".into(), description: None });
    assert!(g.is_active);
    assert_eq!(g.slug, "fast");
    assert_eq!(member_priority(&AddMemberRequest { api_key_id: "k".into(), priority: None }), 0);
    assert_eq!(member_priority(&AddMemberRequest { api_key_id: "k".into(), priority: Some(4) }), 4);
    let groups = vec![g, Group { id: "id-2".into(), slug: "fast".into(), name: "Dup".into(), description: None, is_active: true, created_at: String::new() }];
    assert_eq!(group_id_by_slug(&groups, "fast").unwrap(), "id-1");
    let e = group_id_by_slug(&groups, "slow").unwrap_err();
    assert_eq!(e.message, "Group 'slow' not found");
}

#[test]
fn seeding_plan() {
    let defs = seed_defs();
    assert_eq!(defs.len(), 12);
    assert_eq!(defs[0].slug, "ddg-yandex");
    assert!(defs[0].no_cache);
    assert_eq!(defs[8].key_prefix, "BRAVE_KEY");
    assert_eq!(defs[11].priority, 12);
    assert_eq!(key_env_name("BRAVE_KEY", 3), "BRAVE_KEY_3");

    let values = vec!["a".to_string(), "".to_string(), "c".to_string()];
    let refs = configured_keys("BRAVE_KEY", &values);
    assert_eq!(refs, vec!["BRAVE_KEY_1".to_string(), "BRAVE_KEY_3".to_string()]);

    let existing = vec![("brave".to_string(), "p1".to_string()), ("tavily".to_string(), "p2".to_string())];
    assert_eq!(existing_provider_id(&existing, "tavily").as_deref(), Some("p2"));
    assert!(existing_provider_id(&existing, "serper").is_none());

    let pairs = vec![("p1".to_string(), "BRAVE_KEY_1".to_string())];
    let add = keys_to_add("brave", "p1", &refs, &pairs);
    assert_eq!(add, vec![("brave-2".to_string(), "BRAVE_KEY_3".to_string())]);

    let p = seed_provider("new-id".into(), &defs[9]);
    assert_eq!((p.slug.as_str(), p.priority, p.is_active, p.no_cache), ("tavily", 10, true, false));
}

#[test]
fn cached_answer_summary() {
    let entry = CacheEntry {
        results: vec![result("https://a.test/1", None), result("https://a.test/2", None)],
        provider_slug: "brave".into(),
        api_key_id: "k1".into(),
        stored_at_ms: NOW,
        ttl_ms: HOUR_MS,
    };
    let meta = cached_meta(&entry);
    assert_eq!(meta.provider, "brave");
    assert_eq!(meta.api_key_id, "k1");
    assert_eq!(meta.fallback_chain, "brave:cached");
    assert!(meta.cache_hit);
    assert_eq!((meta.duration_ms, meta.n_returned), (0, 2));
}

#[test]
fn results_cache_respects_ttl_and_no_cache() {
    let mut cache = QueryCache::new();
    let results = vec![result("https://a.test/1", None)];
    let no_cache = vec!["ddg-yandex".to_string()];
    store_results(&mut cache, "k".into(), &results, "ddg-yandex", "id", 3600, &no_cache, NOW);
    assert!(cache.is_empty());
    store_results(&mut cache, "k".into(), &results, "brave", "id", 0, &no_cache, NOW);
    assert!(cache.is_empty());
    store_results(&mut cache, "k".into(), &results, "brave", "id", 60, &no_cache, NOW);
    assert_eq!(cache.len(), 1);
    assert!(read_cached(&mut cache, "k", 0, false, NOW).is_none());
    assert!(read_cached(&mut cache, "k", 60, true, NOW).is_none());
    let hit = read_cached(&mut cache, "k", 60, false, NOW + 59_999).unwrap();
    assert_eq!(hit.provider_slug, "brave");
    assert_eq!(hit.ttl_ms, 60_000);
    assert!(read_cached(&mut cache, "k", 60, false, NOW + 60_000).is_none());
    assert!(cache.is_empty());
}

#[test]
fn content_request_needs_a_url() {
    let e = requested_urls(&vec!["  ".to_string(), String::new()]).unwrap_err();
    assert_eq!((e.status, e.message.as_str(), e.code.as_str()), (404, "no urls provided", "not_found"));
    let ok = requested_urls(&vec![" https://a.test ".to_string(), "https://a.test".to_string()]).unwrap();
    assert_eq!(ok, vec!["https://a.test".to_string()]);
}


fn extracted(url: &str, text: Option<&str>, source: &str) -> ExtractedDoc {
    ExtractedDoc {
        url: url.into(),
        title: None,
        published_date: None,
        content: text.map(|t| FullContent { text: t.into(), format: "markdown".into(), length: t.len() }),
        source: source.into(),
        error: if text.is_none() { Some("failed".into()) } else { None },
    }
}

#[test]
fn contents_answer_stashes_fetched_bodies_and_follows_request() {
    let mut docs = DocCache::new();
    let urls = vec!["https://a.test/1".to_string(), "https://b.test/2".to_string(), "https://c.test/3".to_string()];
    let served = vec![extracted("https://b.test/2", Some("cached"), "cache")];
    let fetched = vec![extracted("https://c.test/3", None, "parallel"), extracted("https://a.test/1", Some("fresh"), "parallel")];
    let (answer, ok, failed) = compose_contents(&urls, served, fetched, &mut docs, 3_600_000, 1_000);
    let order: Vec<&str> = answer.iter().map(|d| d.url.as_str()).collect();
    assert_eq!(order, vec!["https://a.test/1", "https://b.test/2", "https://c.test/3"]);
    assert_eq!((ok, failed), (2, 1));
    let hit = docs.get("https://a.test/1", 2_000).unwrap();
    assert_eq!(hit.full_content.unwrap().text, "fresh");
    assert!(docs.get("https://c.test/3", 2_000).is_none());
}

#[test]
fn seeding_leaves_a_registered_provider_untouched() {
    let defs = seed_defs();
    let brave = defs.iter().find(|d| d.slug == "brave").unwrap();
    let existing = vec![("brave".to_string(), "p-1".to_string())];
    match provider_step(&existing, brave) {
        ProviderStep::Existing { id } => assert_eq!(id, "p-1"),
        ProviderStep::Register => panic!("a registered provider must not be registered again"),
    }
    assert!(matches!(provider_step(&vec![], brave), ProviderStep::Register));
}

#[test]
fn report_without_positive_limit_leaves_usage_alone() {
    let mut rl = RateLimitState::new();
    let mut usage = UsageTracker::new();
    usage.reserve("k1", 1_000);
    let req = ReportRequest {
        api_key_id: "k1".into(),
        outcome: "success".into(),
        error_type: None,
        remaining_requests: Some(i64::MAX),
        limit_requests: Some(-2),
        sync_limits: true,
    };
    let (resp, reported) = apply_report(&req, &mut rl, &mut usage, 1_000);
    assert!(resp.ok && reported.is_none());
    assert_eq!(usage.rpm_count("k1", 1_000), 1);
}
