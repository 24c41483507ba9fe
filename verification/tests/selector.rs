use proviz::language_profile::{LanguageProfile, ProfileMatcher};
use proviz::models::{ApiKey, Candidate, Provider};
use proviz::rate_limit::{ErrorType, RateLimitState, UsageTracker};
use proviz::selector::{SelectRequest, Selector, SkipReason};

const NOW: u64 = 1_700_000_000_000;

fn make_provider(slug: &str, priority: i64, active: bool) -> Provider {
    Provider {
        id: slug.to_string(),
        slug: slug.to_string(),
        name: slug.to_string(),
        base_url: None,
        is_active: active,
        priority,
        avg_latency_ms: None,
        notes: None,
        created_at: String::new(),
        no_cache: false,
    }
}

fn make_key(id: &str, provider_id: &str, active: bool) -> ApiKey {
    ApiKey {
        id: id.to_string(),
        provider_id: provider_id.to_string(),
        label: id.to_string(),
        key_ref: format!("{id}_REF"),
        is_active: active,
        rpm_limit: None,
        rpd_limit: None,
        last_used_at: None,
        created_at: String::new(),
    }
}

fn make_candidate(slug: &str, key_id: &str, priority: i64, active: bool) -> Candidate {
    Candidate {
        provider: make_provider(slug, priority, active),
        api_key: make_key(key_id, slug, active),
        member_priority: None,
    }
}

fn make_selector() -> Selector {
    Selector::new(RateLimitState::new(), UsageTracker::new(), ProfileMatcher::new(vec![]))
}

fn eligible_slugs(sel: &Selector, pool: &Vec<Candidate>, req: &SelectRequest, extra: &Vec<String>) -> Vec<String> {
    let s = sel.screen(pool, req, extra, NOW);
    s.eligible.iter().map(|&i| pool[i].provider.slug.clone()).collect()
}

#[test]
fn test_selector_skips_inactive_provider() {
    let sel = make_selector();
    let pool = vec![
        make_candidate("brave", "k1", 0, false), // inactive
        make_candidate("tavily", "k2", 5, true),
    ];
    let req = SelectRequest::new();
    assert_eq!(eligible_slugs(&sel, &pool, &req, &vec![]), vec!["tavily".to_string()]);
}

#[test]
fn test_selector_skips_rate_limited_key() {
    let mut rl = RateLimitState::new();
    rl.report_error("k1", ErrorType::Rpm, NOW);
    let sel = Selector::new(rl, UsageTracker::new(), ProfileMatcher::new(vec![]));
    let pool = vec![
        make_candidate("brave", "k1", 0, true), // rate limited
        make_candidate("tavily", "k2", 5, true),
    ];
    let req = SelectRequest::new();
    assert_eq!(eligible_slugs(&sel, &pool, &req, &vec![]), vec!["tavily".to_string()]);
}

#[test]
fn test_selector_skips_excluded_key() {
    let sel = make_selector();
    let pool = vec![
        make_candidate("brave", "k1", 0, true),
        make_candidate("tavily", "k2", 5, true),
    ];
    let req = SelectRequest::new();
    assert_eq!(eligible_slugs(&sel, &pool, &req, &vec!["k1".to_string()]), vec!["tavily".to_string()]);
}

#[test]
fn test_selector_returns_none_when_all_excluded() {
    let sel = make_selector();
    let pool = vec![make_candidate("brave", "k1", 0, true)];
    let req = SelectRequest::new();
    let s = sel.screen(&pool, &req, &vec!["k1".to_string()], NOW);
    assert!(s.eligible.is_empty());
}

#[test]
fn test_selector_respects_request_exclude_provider_slugs() {
    let sel = make_selector();
    let pool = vec![
        make_candidate("brave", "k1", 0, true),
        make_candidate("tavily", "k2", 5, true),
    ];
    let mut req = SelectRequest::new();
    req.exclude_provider_slugs = vec!["brave".to_string()];
    assert_eq!(eligible_slugs(&sel, &pool, &req, &vec![]), vec!["tavily".to_string()]);
}

#[test]
fn test_profile_exclude_removes_from_pool() {
    let sel = Selector::new(
        RateLimitState::new(),
        UsageTracker::new(),
        ProfileMatcher::new(vec![LanguageProfile {
            language: "fr".into(),
            country: "*".into(),
            priority: vec![],
            exclude: vec!["mojeek".into()],
        }]),
    );
    let pool = vec![
        make_candidate("mojeek", "k1", 0, true),
        make_candidate("brave", "k2", 5, true),
    ];
    let mut req = SelectRequest::new();
    req.language = Some("fr".to_string());
    assert_eq!(eligible_slugs(&sel, &pool, &req, &vec![]), vec!["brave".to_string()]);
}

#[test]
fn skips_report_the_first_failed_filter() {
    let mut rl = RateLimitState::new();
    rl.report_error("k3", ErrorType::Auth, NOW);
    let sel = Selector::new(rl, UsageTracker::new(), ProfileMatcher::new(vec![]));
    let mut inactive_key = make_candidate("b", "k2", 0, true);
    inactive_key.api_key.is_active = false;
    let pool = vec![
        make_candidate("a", "k1", 0, false),
        inactive_key,
        make_candidate("c", "k3", 0, true),
        make_candidate("d", "k4", 0, true),
        make_candidate("e", "k5", 0, true),
    ];
    let mut req = SelectRequest::new();
    req.exclude_key_ids = vec!["k4".to_string()];
    let s = sel.screen(&pool, &req, &vec![], NOW);
    assert_eq!(s.eligible, vec![4]);
    let reasons: Vec<(usize, SkipReason)> = s.skipped.iter().map(|k| (k.index, k.reason)).collect();
    assert_eq!(
        reasons,
        vec![
            (0, SkipReason::ProviderInactive),
            (1, SkipReason::KeyInactive),
            (2, SkipReason::RateLimitCooldown),
            (3, SkipReason::ExcludedByRequest),
        ]
    );
    assert_eq!(s.skipped[2].cooldown_remaining_ms, Some(300_000));
    assert_eq!(s.skipped[0].cooldown_remaining_ms, None);
    assert_eq!(SkipReason::RateLimitCooldown.code(), "rpm_cooldown");
    assert_eq!(SkipReason::ExcludedByProfile.code(), "profile_excluded");
}
