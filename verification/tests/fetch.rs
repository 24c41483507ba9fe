use proviz::catalog::Catalog;
use proviz::content::{assemble_docs, extraction_pool, no_extractor_error, ContentRun, ExtractedDoc};
use proviz::executor::{build_tiers, empty_pool_error, exhausted_error, keep_providers, SearchRun};
use proviz::models::{ApiKey, Candidate, FullContent, Group, GroupMember, Provider};
use proviz::providers::{ContentDoc, ContentOutput, ProviderError};
use proviz::language_profile::ProfileMatcher;
use proviz::rate_limit::{ErrorType, RateLimitState, UsageTracker};
use proviz::selector::{SelectRequest, Selector, SkipReason};
use proviz::stats::StatsTracker;

const NOW: u64 = 1_700_000_000_000;

fn provider(slug: &str, priority: i64, active: bool) -> Provider {
    Provider {
        id: format!("p-{slug}"),
        slug: slug.to_string(),
        name: slug.to_string(),
        base_url: None,
        is_active: active,
        priority,
        avg_latency_ms: None,
        notes: None,
        created_at: String::new(),
        no_cache: false,
    }
}

fn key(id: &str, provider_id: &str, active: bool) -> ApiKey {
    ApiKey {
        id: id.to_string(),
        provider_id: provider_id.to_string(),
        label: id.to_string(),
        key_ref: format!("{id}_REF"),
        is_active: active,
        rpm_limit: None,
        rpd_limit: None,
        last_used_at: None,
        created_at: String::new(),
    }
}

fn candidate(slug: &str, key_id: &str, member_priority: Option<i64>) -> Candidate {
    Candidate {
        provider: provider(slug, 0, true),
        api_key: key(key_id, &format!("p-{slug}"), true),
        member_priority,
    }
}

fn catalog() -> Catalog {
    Catalog {
        providers: vec![provider("brave", 1, true), provider("tavily", 2, true), provider("old", 3, false)],
        api_keys: vec![
            key("k1", "p-brave", true),
            key("k2", "p-tavily", true),
            key("k3", "p-old", true),
            key("k4", "p-brave", false),
        ],
        groups: vec![Group {
            id: "g1".into(),
            slug: "fast".into(),
            name: "Fast".into(),
            description: None,
            is_active: true,
            created_at: String::new(),
        }],
        group_members: vec![
            GroupMember { id: "m1".into(), group_id: "g1".into(), api_key_id: "k2".into(), priority: 0, is_enabled: true },
            GroupMember { id: "m2".into(), group_id: "g1".into(), api_key_id: "k1".into(), priority: 1, is_enabled: true },
            GroupMember { id: "m3".into(), group_id: "g1".into(), api_key_id: "k3".into(), priority: 2, is_enabled: true },
        ],
    }
}

fn body(text: &str) -> FullContent {
    FullContent { text: text.to_string(), format: "markdown".to_string(), length: text.len() }
}

fn page(url: &str, text: &str) -> ContentDoc {
    ContentDoc { url: url.to_string(), title: Some("t".to_string()), published_date: None, content: body(text) }
}

#[test]
fn catalog_pool_without_group_is_every_active_key() {
    let c = catalog();
    let pool = c.candidates(None);
    let ids: Vec<&str> = pool.iter().map(|c| c.api_key.id.as_str()).collect();
    assert_eq!(ids, vec!["k1", "k2"]);
    assert!(pool.iter().all(|c| c.member_priority.is_none()));
}

#[test]
fn catalog_pool_of_a_group_carries_member_priorities() {
    let c = catalog();
    let pool = c.candidates(Some("fast"));
    let got: Vec<(&str, Option<i64>)> =
        pool.iter().map(|c| (c.api_key.id.as_str(), c.member_priority)).collect();
    // a group member's provider need not be active; its key must be
    assert_eq!(got, vec![("k2", Some(0)), ("k1", Some(1)), ("k3", Some(2))]);
    // a group that no active group has yields no candidate
    assert!(c.candidates(Some("nope")).is_empty());
}

#[test]
fn tiers_follow_member_priorities() {
    let pool = vec![candidate("a", "k1", Some(2)), candidate("b", "k2", Some(1)), candidate("c", "k3", Some(2))];
    let tiers = build_tiers(&pool);
    assert_eq!(tiers.len(), 2);
    assert_eq!(tiers[0].priority, Some(1));
    assert_eq!(tiers[0].members, vec![1]);
    assert_eq!(tiers[1].members, vec![0, 2]);

    let flat = vec![candidate("a", "k1", None), candidate("b", "k2", None)];
    let tiers = build_tiers(&flat);
    assert_eq!(tiers.len(), 1);
    assert_eq!(tiers[0].members, vec![0, 1]);
}

#[test]
fn search_chain_records_failures_then_success() {
    let mut run = SearchRun::new(1, 3);
    let mut rl = RateLimitState::new();
    let mut stats = StatsTracker::new();
    let a = candidate("brave", "k1", None);
    let b = candidate("tavily", "k2", None);
    assert_eq!(run.current_tier(), Some(0));
    let et = run.record_failure(&a, &ProviderError::RateLimit, 12, &mut rl, &mut stats, NOW);
    assert_eq!(et, ErrorType::Rpm);
    assert!(rl.is_limited("k1", NOW));
    assert_eq!(run.excluded, vec!["k1".to_string()]);
    let slug = run.record_success(&b, Some("ddg-yandex".into()), 30, 45, &mut stats, NOW);
    assert_eq!(slug, "ddg-yandex");
    assert_eq!(run.fallback_chain(), "brave:rpm,ddg-yandex:ok");
    assert_eq!(run.attempts.len(), 2);
    assert_eq!(run.attempts[0].error.as_deref(), Some("rpm"));
    assert!(run.attempts[1].success);
    let w = stats.window_stats(300, NOW);
    assert_eq!((w.searches, w.errors), (2, 1));
}

#[test]
fn search_chain_stops_after_max_fallbacks() {
    let mut run = SearchRun::new(1, 1);
    let mut rl = RateLimitState::new();
    let mut stats = StatsTracker::new();
    let a = candidate("brave", "k1", None);
    run.record_failure(&a, &ProviderError::Timeout, 1, &mut rl, &mut stats, NOW);
    assert_eq!(run.current_tier(), Some(0));
    run.record_failure(&a, &ProviderError::Empty, 1, &mut rl, &mut stats, NOW);
    assert_eq!(run.current_tier(), None);
    assert_eq!(run.fallback_chain(), "brave:timeout,brave:empty");
}

#[test]
fn pool_keeps_only_capable_providers() {
    let pool = vec![candidate("brave", "k1", None), candidate("tavily", "k2", None), candidate("staan", "k3", None)];
    let kept = keep_providers(pool, &vec!["staan".to_string(), "tavily".to_string()]);
    let slugs: Vec<&str> = kept.iter().map(|c| c.provider.slug.as_str()).collect();
    assert_eq!(slugs, vec!["tavily", "staan"]);
}

#[test]
fn per_url_fallback_only_retries_unresolved() {
    let urls = vec!["https://a.test/1".to_string(), "https://a.test/2".to_string(), "https://a.test/3".to_string()];
    let mut run = ContentRun::new(urls.clone(), 1, 3);
    let mut rl = RateLimitState::new();
    let mut stats = StatsTracker::new();
    let a = candidate("prov-a", "ka", None);
    let b = candidate("prov-b", "kb", None);

    // prov-a extracts the first page only
    assert_eq!(run.current_tier(), Some(0));
    run.begin_attempt(&a);
    let batches = run.take_batch(5);
    assert_eq!(batches, vec![urls.clone()]);
    let got = run.apply_output(
        &"prov-a".to_string(),
        ContentOutput {
            docs: vec![page("https://a.test/1", "one")],
            failed: vec![
                ("https://a.test/2".into(), "not supported".into()),
                ("https://a.test/3".into(), "not supported".into()),
            ],
        },
    );
    assert!(got);
    run.finish_attempt(&a, got, None, 5, &mut rl, &mut stats, NOW);
    run.prune_unresolved();
    assert_eq!(run.unresolved, vec!["https://a.test/2".to_string(), "https://a.test/3".to_string()]);

    // prov-b only gets what is left, and extracts the second page
    assert_eq!(run.current_tier(), Some(0));
    run.begin_attempt(&b);
    let batches = run.take_batch(5);
    assert_eq!(batches, vec![vec!["https://a.test/2".to_string(), "https://a.test/3".to_string()]]);
    let got = run.apply_output(
        &"prov-b".to_string(),
        ContentOutput {
            docs: vec![page("https://a.test/2", "two")],
            failed: vec![("https://a.test/3".into(), "not supported".into())],
        },
    );
    run.finish_attempt(&b, got, None, 5, &mut rl, &mut stats, NOW);
    run.prune_unresolved();

    let docs = assemble_docs(&urls, run.resolved, &run.last_reason);
    assert_eq!(docs.len(), 3);
    assert_eq!(docs[0].source, "prov-a");
    assert_eq!(docs[1].source, "prov-b");
    assert!(docs[2].content.is_none());
    assert_eq!(docs[2].error.as_deref(), Some("not supported"));
    assert_eq!(run.providers_used.len(), 2);
    assert_eq!(run.excluded, vec!["ka".to_string(), "kb".to_string()]);
}

#[test]
fn hard_error_cools_provider_and_advances_chain() {
    let urls = vec!["https://x.test/1".to_string()];
    let mut run = ContentRun::new(urls.clone(), 1, 3);
    let mut rl = RateLimitState::new();
    let mut stats = StatsTracker::new();
    let c = candidate("prov-c", "kc", None);
    let d = candidate("prov-d", "kd", None);

    run.begin_attempt(&c);
    let batches = run.take_batch(5);
    run.apply_error(&batches, 0, "rpm".to_string());
    let et = run.finish_attempt(&c, false, Some(&ProviderError::RateLimit), 3, &mut rl, &mut stats, NOW);
    assert_eq!(et, Some(ErrorType::Rpm));
    assert!(rl.is_limited("kc", NOW));
    run.prune_unresolved();
    assert_eq!(run.unresolved, urls);

    run.begin_attempt(&d);
    let _ = run.take_batch(5);
    let got = run.apply_output(
        &"prov-d".to_string(),
        ContentOutput { docs: vec![page("https://x.test/1", "body")], failed: vec![] },
    );
    run.finish_attempt(&d, got, None, 3, &mut rl, &mut stats, NOW);
    run.prune_unresolved();
    assert!(run.unresolved.is_empty());
    assert_eq!(run.current_tier(), None);

    let chain = run.fallback_chain();
    let docs = assemble_docs(&urls, run.resolved, &run.last_reason);
    assert_eq!(docs[0].source, "prov-d");
    assert!(chain.contains("prov-c:rpm"));
    assert!(chain.contains("prov-d:ok"));
}

#[test]
fn batches_respect_the_provider_limit() {
    let urls: Vec<String> = (1..=5).map(|i| format!("https://b.test/{i}")).collect();
    let mut run = ContentRun::new(urls.clone(), 1, 3);
    let batches = run.take_batch(2);
    assert_eq!(batches.len(), 3);
    assert_eq!(batches[0], urls[0..2].to_vec());
    assert_eq!(batches[2], urls[4..5].to_vec());
    assert!(run.unresolved.is_empty());
    // a limit of zero still hands out one URL at a time
    let mut run = ContentRun::new(urls.clone(), 1, 3);
    assert_eq!(run.take_batch(0).len(), 5);
}

#[test]
fn empty_attempt_is_logged_as_empty() {
    let mut run = ContentRun::new(vec!["https://e.test/1".into()], 1, 3);
    let mut rl = RateLimitState::new();
    let mut stats = StatsTracker::new();
    let c = candidate("prov-e", "ke", None);
    run.begin_attempt(&c);
    let _ = run.take_batch(5);
    let got = run.apply_output(
        &"prov-e".to_string(),
        ContentOutput { docs: vec![], failed: vec![("https://e.test/1".into(), "no content returned".into())] },
    );
    assert!(!got);
    assert_eq!(run.finish_attempt(&c, got, None, 1, &mut rl, &mut stats, NOW), None);
    assert_eq!(run.attempts[0].error.as_deref(), Some("empty"));
    assert!(run.providers_used.is_empty());
    assert!(!rl.is_limited("ke", NOW));
    assert_eq!(stats.window_stats(300, NOW).errors, 1);
}

#[test]
fn skipped_tier_is_logged() {
    let mut run = ContentRun::new(vec!["https://s.test/1".into()], 2, 3);
    run.tier_exhausted(&vec![("prov-a".to_string(), "rpm_cooldown".to_string())]);
    assert_eq!(run.fallback_chain(), "prov-a:skipped:rpm_cooldown");
    assert_eq!(run.current_tier(), Some(1));
    run.begin_attempt(&candidate("prov-b", "kb", None));
    run.key_unavailable("prov-b");
    assert!(!run.open);
    assert_eq!(run.fallback_chain(), "prov-a:skipped:rpm_cooldown,prov-b:auth");
}

#[test]
fn assembled_docs_are_one_per_distinct_url() {
    let urls = vec!["https://u/1".to_string(), "https://u/2".to_string(), "https://u/1".to_string()];
    let resolved = vec![ExtractedDoc {
        url: "https://u/2".into(),
        title: None,
        published_date: None,
        content: Some(body("two")),
        source: "p".into(),
        error: None,
    }];
    let docs = assemble_docs(&urls, resolved, &vec![]);
    assert_eq!(docs.len(), 2);
    assert_eq!(docs[0].url, "https://u/1");
    assert_eq!(docs[0].error.as_deref(), Some("no extractor could fetch this URL"));
    assert_eq!(docs[0].source, "");
    assert_eq!(docs[1].source, "p");
}

#[test]
fn failed_key_is_skipped_for_the_rest_of_the_search() {
    let mut run = SearchRun::new(1, 3);
    let mut rl = RateLimitState::new();
    let mut stats = StatsTracker::new();
    let a = candidate("brave", "k1", None);
    let b = candidate("tavily", "k2", None);
    run.record_failure(&a, &ProviderError::Timeout, 5, &mut rl, &mut stats, NOW);
    // A fresh selector without the cooldown still skips k1: the chain excludes it.
    let sel = Selector::new(RateLimitState::new(), UsageTracker::new(), ProfileMatcher::new(vec![]));
    let pool = vec![a, b];
    let s = sel.screen(&pool, &SelectRequest::new(), &run.excluded, NOW);
    assert_eq!(s.eligible, vec![1]);
    assert_eq!(s.skipped.len(), 1);
    assert_eq!(s.skipped[0].reason, SkipReason::ExcludedByRequest);
}

#[test]
fn pool_and_chain_errors_are_503s() {
    let e = empty_pool_error(true);
    assert_eq!((e.status, e.code.as_str()), (503, "no_providers_available"));
    assert_eq!(e.message, "No enrichment-capable provider candidates available");
    assert_eq!(empty_pool_error(false).message, "No provider candidates available");
    assert_eq!(exhausted_error().message, "All provider candidates exhausted");
    let c = no_extractor_error();
    assert_eq!(c.message, "No content-extraction provider candidates available");
    assert!(c.fallback_chain.is_none() && c.attempts.is_none());
}

#[test]
fn inactive_group_yields_no_candidate() {
    let mut c = catalog();
    c.groups[0].is_active = false;
    assert!(c.candidates(Some("fast")).is_empty());
    assert_eq!(c.candidates(None).len(), 2);
}

#[test]
fn extraction_pool_decides_before_any_provider() {
    let pool = vec![candidate("brave", "k1", None), candidate("parallel", "k2", None)];
    let extractors = vec!["parallel".to_string()];
    assert!(matches!(extraction_pool(&vec![], pool.clone(), &extractors), Ok(None)));
    let kept = extraction_pool(&vec!["https://a.test".to_string()], pool.clone(), &extractors).unwrap().unwrap();
    assert_eq!(kept.len(), 1);
    assert_eq!(kept[0].provider.slug, "parallel");
    let e = extraction_pool(&vec!["https://a.test".to_string()], pool, &vec![]).unwrap_err();
    assert_eq!((e.status, e.message.as_str()), (503, "No content-extraction provider candidates available"));
}

#[test]
fn recorded_search_counts_once_in_window_and_provider() {
    let mut stats = StatsTracker::new();
    stats.record_search("brave", false, 10, NOW);
    let w0 = stats.window_stats(300, NOW);
    stats.record_search("brave", true, 30, NOW);
    let w1 = stats.window_stats(300, NOW);
    assert_eq!((w1.searches, w1.errors), (w0.searches + 1, w0.errors + 1));
    stats.record_search("tavily", false, 5, NOW);
    let per = stats.by_provider_stats(300, NOW);
    let got: Vec<(&str, i64, i64, Option<i64>)> =
        per.iter().map(|p| (p.slug.as_str(), p.searches, p.errors, p.avg_latency_ms)).collect();
    assert_eq!(got, vec![("brave", 2, 1, Some(20)), ("tavily", 1, 0, Some(5))]);
}

#[test]
fn attempts_never_outnumber_the_fallbacks_allowed() {
    let mut run = ContentRun::new(vec!["https://x.test/1".into()], 1, 0);
    run.begin_attempt(&candidate("prov-a", "ka", None));
    run.key_unavailable("prov-a");
    assert_eq!((run.attempts.len(), run.real_attempts), (1, 1));
    assert_eq!(run.current_tier(), None);
    let mut other = ContentRun::new(vec!["https://x.test/1".into()], 1, 2);
    other.begin_attempt(&candidate("prov-a", "ka", None));
    other.abandon_attempt();
    assert!(other.attempts.is_empty());
    assert_eq!(other.real_attempts, 1);
    assert_eq!(other.current_tier(), Some(0));
}
