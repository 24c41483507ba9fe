//! The decisions of the HTTP endpoints: how a search request is read and
//! cached, how page content is shared through the document cache, what a
//! usage report does to the limits, and what the health and stats endpoints
//! answer. Transport, JSON and storage calls are left to the caller.

use vstd::prelude::*;
use crate::cache::{spec_expired, spec_normalize, CacheEntry, CacheEntryView, DocCache, DocEntryView, QueryCache};
use crate::content::{doc_pos, put_doc, ExtractedDoc};
use crate::errors::{plain_error, AppError};
use crate::models::{opt_content_view, FullContent, FullContentView, Group};
use crate::config::Config;
use crate::models::{copy_opt_content, copy_opt_snippets, copy_results, results_view, Candidate, SearchResult, SearchResultView};
use crate::rate_limit::{
    max_cooldown_ms, trim_to, usage_of, with_window_events, Cooldown, ErrorType, KeyState, RateLimitState,
    UsageTracker, Window,
};
use crate::stats::{in_window, stats_cutoff, totals, trunc_div, SearchEvent, StatsTracker, WindowStats};
use crate::text::{concat2, concat3, contains_str, decimal, join, seq_has, spec_decimal, spec_join, spec_trim, str_eq, to_owned_string, trim, views};

verus! {

// ---------------------------------------------------------------------------
// Search requests
// ---------------------------------------------------------------------------

/// The number of results asked for when a request names none.
pub fn default_n() -> (res: usize)
    ensures
        res == 10,
{
    10
}

/// How one search request is carried out.
#[derive(Debug, Clone, Copy, PartialEq, Eq, Structural)]
pub struct SearchSettings {
    /// Results asked of the provider, between 1 and 50.
    pub n: usize,
    /// Seconds to keep the results cached; 0 bypasses the cache.
    pub cache_ttl_secs: u64,
    /// Whether page content or extra snippets were asked for.
    pub wants_enrichment: bool,
    pub timeout_ms: u64,
    pub max_fallbacks: usize,
}

/// Reads the options of a search request against the settings: `n` is
/// clamped to 1..=50; the cache time to live and the fallbacks default to
/// the configured ones; the timeout defaults to 10 s when enrichment is
/// asked for (pages are fetched and ranked) and to 8 s otherwise.
pub fn search_settings(
    n: usize,
    cache_ttl_secs: Option<u64>,
    extra_snippets: bool,
    full_content: bool,
    timeout_ms: Option<u64>,
    max_fallbacks: Option<usize>,
    config: &Config,
) -> (res: SearchSettings)
    ensures
        res.n == (if n < 1 { 1 } else if n > 50 { 50 } else { n }),
        res.cache_ttl_secs == (match cache_ttl_secs {
            Some(t) => t,
            None => config.cache_ttl_secs,
        }),
        res.wants_enrichment == (extra_snippets || full_content),
        res.timeout_ms == (match timeout_ms {
            Some(t) => t,
            None => if extra_snippets || full_content { 10_000 } else { 8_000 },
        }),
        res.max_fallbacks == (match max_fallbacks {
            Some(m) => m,
            None => config.max_fallbacks,
        }),
{
    let clamped = if n < 1 { 1 } else if n > 50 { 50 } else { n };
    let wants_enrichment = extra_snippets || full_content;
    let default_timeout: u64 = if wants_enrichment { 10_000 } else { 8_000 };
    SearchSettings {
        n: clamped,
        cache_ttl_secs: match cache_ttl_secs {
            Some(t) => t,
            None => config.cache_ttl_secs,
        },
        wants_enrichment,
        timeout_ms: match timeout_ms {
            Some(t) => t,
            None => default_timeout,
        },
        max_fallbacks: match max_fallbacks {
            Some(m) => m,
            None => config.max_fallbacks,
        },
    }
}

/// The text of a flag.
pub open spec fn bool_text(b: bool) -> Seq<char> {
    if b { "true"@ } else { "false"@ }
}

/// An optional text, absent read as empty.
pub open spec fn opt_text(o: Option<Seq<char>>) -> Seq<char> {
    match o {
        Some(t) => t,
        None => Seq::empty(),
    }
}

/// The view of an optional string slice.
pub open spec fn opt_str(o: Option<&str>) -> Option<Seq<char>> {
    match o {
        Some(t) => Some(t@),
        None => None,
    }
}

/// The enrichment discriminator of a request: empty without enrichment,
/// else every enrichment option in a fixed order.
pub open spec fn spec_enrichment_key(
    extra_snippets: bool,
    full_content: Option<Seq<char>>,
    max_snippets: Option<usize>,
    min_score: Option<Seq<char>>,
    include_domains: Seq<Seq<char>>,
    exclude_domains: Seq<Seq<char>>,
) -> Seq<char> {
    if !extra_snippets && full_content is None {
        Seq::empty()
    } else {
        "es="@ + bool_text(extra_snippets) + "&fc="@ + opt_text(full_content) + "&ms="@ + (match max_snippets {
            Some(m) => spec_decimal(m as nat),
            None => Seq::empty(),
        }) + "&mn="@ + opt_text(min_score) + "&inc="@ + spec_join(include_domains, ","@) + "&exc="@ + spec_join(
            exclude_domains,
            ","@,
        )
    }
}

/// Folds every option that changes an enriched answer into one string, so
/// the results cache never answers a plain request with an enriched entry or
/// the other way round. `min_score` comes as the text the score prints as.
pub fn enrichment_cache_key(
    extra_snippets: bool,
    full_content: Option<&str>,
    max_snippets: Option<usize>,
    min_score: Option<&str>,
    include_domains: &Vec<String>,
    exclude_domains: &Vec<String>,
) -> (res: String)
    ensures
        res@ == spec_enrichment_key(
            extra_snippets,
            opt_str(full_content),
            max_snippets,
            opt_str(min_score),
            views(include_domains@),
            views(exclude_domains@),
        ),
{
    if !extra_snippets && full_content.is_none() {
        return String::new();
    }
    let mut out = to_owned_string("es=");
    if extra_snippets {
        out.append("true");
    } else {
        out.append("false");
    }
    out.append("&fc=");
    match full_content {
        Some(f) => out.append(f),
        None => {},
    }
    out.append("&ms=");
    match max_snippets {
        Some(m) => {
            let d = decimal(m as u64);
            out.append(d.as_str());
        },
        None => {},
    }
    out.append("&mn=");
    match min_score {
        Some(t) => out.append(t),
        None => {},
    }
    out.append("&inc=");
    let inc = join(include_domains, ",");
    out.append(inc.as_str());
    out.append("&exc=");
    let exc = join(exclude_domains, ",");
    out.append(exc.as_str());
    proof {
        let ms = match max_snippets {
            Some(m) => spec_decimal(m as nat),
            None => Seq::<char>::empty(),
        };
        assert(out@ =~= spec_enrichment_key(
            extra_snippets,
            opt_str(full_content),
            max_snippets,
            opt_str(min_score),
            views(include_domains@),
            views(exclude_domains@),
        ));
    }
    out
}

/// Whether every candidate of a non-empty pool belongs to a provider whose
/// results are never cached.
pub open spec fn spec_all_no_cache(pool: Seq<Candidate>, no_cache: Seq<String>) -> bool {
    pool.len() > 0 && forall|i: int| 0 <= i < pool.len() ==> seq_has(no_cache, #[trigger] pool[i].provider.slug@)
}

/// Whether the cache is to be bypassed because the pool is non-empty and
/// all of it belongs to no-cache providers.
pub fn group_all_no_cache(pool: &Vec<Candidate>, no_cache: &Vec<String>) -> (res: bool)
    ensures
        res == spec_all_no_cache(pool@, no_cache@),
{
    if pool.len() == 0 {
        return false;
    }
    let mut i: usize = 0;
    while i < pool.len()
        invariant
            i <= pool@.len(),
            forall|j: int| 0 <= j < i ==> seq_has(no_cache@, #[trigger] pool@[j].provider.slug@),
        decreases pool.len() - i,
    {
        if !contains_str(no_cache, pool[i].provider.slug.as_str()) {
            return false;
        }
        i = i + 1;
    }
    true
}

/// The chain reported for an answer served from the cache.
pub fn cached_chain(provider_slug: &str) -> (res: String)
    ensures
        res@ == provider_slug@ + ":cached"@,
{
    concat2(provider_slug, ":cached")
}

/// Whether fresh results are to be cached: caching is on and the provider
/// that answered is not a no-cache one.
pub fn should_cache(cache_ttl_secs: u64, no_cache: &Vec<String>, provider_slug: &str) -> (res: bool)
    ensures
        res == (cache_ttl_secs > 0 && !seq_has(no_cache@, provider_slug@)),
{
    cache_ttl_secs > 0 && !contains_str(no_cache, provider_slug)
}

/// The cached answer for a request: nothing, and the cache untouched, when
/// caching is off (a time to live of 0) or every candidate of the pool is a
/// no-cache provider; else what the cache holds under `key` while fresh at
/// `now` (an expired entry is dropped).
pub fn read_cached(
    cache: &mut QueryCache,
    key: &str,
    cache_ttl_secs: u64,
    all_no_cache: bool,
    now: u64,
) -> (res: Option<CacheEntry>)
    ensures
        if cache_ttl_secs == 0 || all_no_cache {
            res is None && final(cache)@ == old(cache)@
        } else {
            match old(cache)@.get(key@) {
                None => res is None && final(cache)@ == old(cache)@,
                Some(e) => if spec_expired(e.stored_at_ms, e.ttl_ms, now) {
                    res is None && final(cache)@ == old(cache)@.remove(key@)
                } else {
                    res matches Some(r) && r@ == e && final(cache)@ == old(cache)@
                },
            }
        },
{
    if cache_ttl_secs == 0 || all_no_cache {
        return None;
    }
    cache.get(key, now)
}

/// The time to live of a cache entry in milliseconds (saturating).
pub open spec fn ttl_ms_of(cache_ttl_secs: u64) -> u64 {
    if cache_ttl_secs * 1000 > u64::MAX { u64::MAX } else { (cache_ttl_secs * 1000) as u64 }
}

/// Caches the results a provider answered with under `key`, stored at
/// `now` for the requested time to live, unless caching is off or the
/// provider is a no-cache one.
pub fn store_results(
    cache: &mut QueryCache,
    key: String,
    results: &Vec<SearchResult>,
    provider_slug: &str,
    api_key_id: &str,
    cache_ttl_secs: u64,
    no_cache: &Vec<String>,
    now: u64,
)
    ensures
        if cache_ttl_secs > 0 && !seq_has(no_cache@, provider_slug@) {
            final(cache)@ == old(cache)@.insert(
                key@,
                CacheEntryView {
                    results: results_view(results@),
                    provider_slug: provider_slug@,
                    api_key_id: api_key_id@,
                    stored_at_ms: now,
                    ttl_ms: ttl_ms_of(cache_ttl_secs),
                },
            )
        } else {
            final(cache)@ == old(cache)@
        },
{
    if should_cache(cache_ttl_secs, no_cache, provider_slug) {
        let entry = CacheEntry {
            results: copy_results(results),
            provider_slug: to_owned_string(provider_slug),
            api_key_id: to_owned_string(api_key_id),
            stored_at_ms: now,
            ttl_ms: match cache_ttl_secs.checked_mul(1000) {
                Some(ms) => ms,
                None => u64::MAX,
            },
        };
        cache.set(key, entry);
    }
}

// ---------------------------------------------------------------------------
// Page content shared through the document cache
// ---------------------------------------------------------------------------

/// One result against the document cache: a result that carries content
/// stores it under its URL; one without takes the content cached for its
/// URL while that is fresh, and an expired entry is dropped.
pub open spec fn doc_step(
    r: SearchResultView,
    m: Map<Seq<char>, DocEntryView>,
    ttl_ms: u64,
    now: u64,
) -> (SearchResultView, Map<Seq<char>, DocEntryView>) {
    let key = spec_normalize(r.url);
    if r.full_content is Some || r.extra_snippets is Some {
        (
            r,
            m.insert(
                key,
                DocEntryView {
                    full_content: r.full_content,
                    extra_snippets: r.extra_snippets,
                    stored_at_ms: now,
                    ttl_ms,
                },
            ),
        )
    } else {
        match m.get(key) {
            None => (r, m),
            Some(e) => if spec_expired(e.stored_at_ms, e.ttl_ms, now) {
                (r, m.remove(key))
            } else {
                (SearchResultView { full_content: e.full_content, extra_snippets: e.extra_snippets, ..r }, m)
            },
        }
    }
}

/// The results and the document cache after taking the results in order.
pub open spec fn doc_sync(
    rs: Seq<SearchResultView>,
    m: Map<Seq<char>, DocEntryView>,
    ttl_ms: u64,
    now: u64,
) -> (Seq<SearchResultView>, Map<Seq<char>, DocEntryView>)
    decreases rs.len(),
{
    if rs.len() == 0 {
        (Seq::empty(), m)
    } else {
        let before = doc_sync(rs.drop_last(), m, ttl_ms, now);
        let step = doc_step(rs.last(), before.1, ttl_ms, now);
        (before.0.push(step.0), step.1)
    }
}

/// Shares page content between searches through the document cache: a
/// result that came with content stores it for `ttl_ms` from `now`, and a
/// result without is filled from a fresh cached copy of its page.
pub fn sync_doc_cache(results: Vec<SearchResult>, docs: &mut DocCache, ttl_ms: u64, now: u64) -> (res: Vec<SearchResult>)
    ensures
        results_view(res@) == doc_sync(results_view(results@), old(docs)@, ttl_ms, now).0,
        final(docs)@ == doc_sync(results_view(results@), old(docs)@, ttl_ms, now).1,
{
    let ghost all = results_view(results@);
    let mut rest = results;
    let mut out: Vec<SearchResult> = Vec::new();
    let ghost mut i: int = 0;
    proof {
        assert(results_view(rest@) =~= all.skip(0));
        assert(all.take(0) =~= Seq::<SearchResultView>::empty());
    }
    while rest.len() > 0
        invariant
            0 <= i <= all.len(),
            results_view(rest@) == all.skip(i),
            results_view(out@) == doc_sync(all.take(i), old(docs)@, ttl_ms, now).0,
            docs@ == doc_sync(all.take(i), old(docs)@, ttl_ms, now).1,
        decreases rest.len(),
    {
        let ghost before_rest = rest@;
        let ghost before_out = out@;
        let r = rest.remove(0);
        proof {
            assert(r@ == results_view(before_rest)[0]);
            assert(results_view(before_rest).len() == before_rest.len());
            assert(before_rest.len() > 0);
            assert(all.skip(i).len() == all.len() - i);
            assert(i < all.len());
            assert(all.skip(i)[0] == all[i]);
            assert(r@ == all[i]);
            assert(rest@ =~= before_rest.subrange(1, before_rest.len() as int));
            assert forall|k: int| 0 <= k < results_view(rest@).len() implies results_view(rest@)[k] == all.skip(i + 1)[k] by {
                assert(results_view(before_rest)[k + 1] == all.skip(i)[k + 1]);
            }
            assert(results_view(rest@) =~= all.skip(i + 1));
            assert(all.take(i + 1).drop_last() =~= all.take(i));
            assert(all.take(i + 1).last() == all[i]);
        }
        if r.full_content.is_some() || r.extra_snippets.is_some() {
            let fc = copy_opt_content(&r.full_content);
            let es = copy_opt_snippets(&r.extra_snippets);
            docs.set(r.url.as_str(), fc, es, ttl_ms, now);
            out.push(r);
        } else {
            match docs.get(r.url.as_str(), now) {
                Some(e) => {
                    let mut r = r;
                    r.full_content = e.full_content;
                    r.extra_snippets = e.extra_snippets;
                    out.push(r);
                },
                None => {
                    out.push(r);
                },
            }
        }
        proof {
            assert(results_view(out@) =~= results_view(before_out).push(out@.last()@));
            i = i + 1;
        }
    }
    proof {
        assert(all.take(i) =~= all);
    }
    out
}

// ---------------------------------------------------------------------------
// Usage reports
// ---------------------------------------------------------------------------

/// A caller's report on a request it made with a key.
pub struct ReportRequest {
    pub api_key_id: String,
    pub outcome: String,
    pub error_type: Option<String>,
    pub remaining_requests: Option<i64>,
    pub limit_requests: Option<i64>,
    pub sync_limits: bool,
}

pub struct ReportResponse {
    pub ok: bool,
}

/// Whether a report asks for the per-minute window to be synced.
pub open spec fn wants_sync(req: ReportRequest) -> bool {
    req.sync_limits && req.remaining_requests is Some && req.limit_requests is Some
}

/// The error kind a report puts in cooldown: one named by a report whose
/// outcome is "rate_limit" or "error", read by its name ("rpm", "rpd",
/// "rps", "auth", "timeout", "empty", anything else a plain error).
pub open spec fn reported_error(req: ReportRequest) -> Option<ErrorType> {
    if req.outcome@ == "rate_limit"@ || req.outcome@ == "error"@ {
        match req.error_type {
            Some(t) => Some(ErrorType::spec_from_name(t@)),
            None => None,
        }
    } else {
        None
    }
}

/// Applies a usage report at `now`: syncs the per-minute window of the key
/// to the reported remaining count when asked, and puts the key in cooldown
/// for the reported error kind. Returns the answer and the error kind to
/// record as a rate event, if any.
pub fn apply_report(
    req: &ReportRequest,
    rate_limit: &mut RateLimitState,
    usage: &mut UsageTracker,
    now: u64,
) -> (res: (ReportResponse, Option<ErrorType>))
    requires
        now <= u64::MAX - max_cooldown_ms(),
        wants_sync(*req) && req.limit_requests.unwrap() > 0
            ==> i64::MIN <= req.limit_requests.unwrap() - req.remaining_requests.unwrap() <= i64::MAX,
    ensures
        res.0.ok,
        res.1 == reported_error(*req),
        final(rate_limit)@ == (match reported_error(*req) {
            Some(et) => old(rate_limit)@.insert(
                req.api_key_id@,
                Cooldown { unblocked_at_ms: (now + et.spec_cooldown_secs() * 1000) as u64, error_type: et },
            ),
            None => old(rate_limit)@,
        }),
        !wants_sync(*req) ==> final(usage)@ == old(usage)@,
        wants_sync(*req) ==> ({
            let limit = req.limit_requests.unwrap();
            let remaining = req.remaining_requests.unwrap();
            final(usage)@ == (if limit <= 0 {
                old(usage)@
            } else {
                old(usage)@.insert(
                    req.api_key_id@,
                    with_window_events(
                        usage_of(old(usage)@, req.api_key_id@),
                        Window::PerMinute,
                        trim_to(
                            usage_of(old(usage)@, req.api_key_id@).rpm_events,
                            if limit - remaining >= 0 { (limit - remaining) as nat } else { 0 },
                        ),
                    ),
                )
            })
        }),
{
    if req.sync_limits {
        match (req.remaining_requests, req.limit_requests) {
            (Some(remaining), Some(limit)) => {
                usage.sync_rpm(req.api_key_id.as_str(), remaining, limit);
            },
            _ => {},
        }
    }
    let mut reported: Option<ErrorType> = None;
    if str_eq(req.outcome.as_str(), "rate_limit") || str_eq(req.outcome.as_str(), "error") {
        match &req.error_type {
            Some(t) => {
                let et = ErrorType::from_name(t.as_str());
                rate_limit.report_error(req.api_key_id.as_str(), et, now);
                reported = Some(et);
            },
            None => {},
        }
    }
    (ReportResponse { ok: true }, reported)
}

// ---------------------------------------------------------------------------
// Health and stats
// ---------------------------------------------------------------------------

/// How a key's state is shown: its name and the cooldown left.
pub fn key_health_state(state: KeyState) -> (res: (&'static str, u64))
    ensures
        match state {
            KeyState::Available => res.0@ == "ok"@ && res.1 == 0,
            KeyState::Cooldown(ms) => res.0@ == "cooldown"@ && res.1 == ms,
            KeyState::Disabled => res.0@ == "disabled"@ && res.1 == 0,
        },
{
    match state {
        KeyState::Available => ("ok", 0),
        KeyState::Cooldown(ms) => ("cooldown", ms),
        KeyState::Disabled => ("disabled", 0),
    }
}

/// Searches, errors and average latency of one provider, as answered.
pub struct ProviderStatsOut {
    pub searches: i64,
    pub errors: i64,
    pub avg_latency_ms: Option<i64>,
}

/// The stats endpoint's answer: the last five minutes overall, and each
/// provider over the last hour.
pub struct StatsResponse {
    pub window_5m: WindowStats,
    pub by_provider: Vec<(String, ProviderStatsOut)>,
}

/// The stats answer at `now`.
pub fn stats_response(stats: &StatsTracker, now: u64) -> (res: StatsResponse)
    ensures
        res.window_5m.searches == in_window(stats@, stats_cutoff(now, 300)).len() as i64,
        res.window_5m.errors == in_window(stats@, stats_cutoff(now, 300)).filter(|e: SearchEvent| e.is_error).len() as i64,
        res.by_provider@.len() == totals(in_window(stats@, stats_cutoff(now, 3600))).len(),
        forall|j: int| 0 <= j < res.by_provider@.len() ==> {
            let t = totals(in_window(stats@, stats_cutoff(now, 3600)))[j];
            &&& (#[trigger] res.by_provider@[j]).0@ == t.0
            &&& res.by_provider@[j].1.searches == t.1 as i64
            &&& res.by_provider@[j].1.errors == t.2 as i64
            &&& res.by_provider@[j].1.avg_latency_ms == Some(trunc_div(t.3, t.1) as i64)
        },
{
    let window_5m = stats.window_stats(300, now);
    let mut per = stats.by_provider_stats(3600, now);
    let ghost all = per@;
    let mut by_provider: Vec<(String, ProviderStatsOut)> = Vec::new();
    let ghost mut i: int = 0;
    proof { assert(per@ =~= all.skip(0)); }
    while per.len() > 0
        invariant
            0 <= i <= all.len(),
            per@ == all.skip(i),
            by_provider@.len() == i,
            forall|j: int| 0 <= j < i ==> {
                &&& (#[trigger] by_provider@[j]).0 == all[j].slug
                &&& by_provider@[j].1.searches == all[j].searches
                &&& by_provider@[j].1.errors == all[j].errors
                &&& by_provider@[j].1.avg_latency_ms == all[j].avg_latency_ms
            },
        decreases per.len(),
    {
        let p = per.remove(0);
        proof {
            assert(p == all[i]);
            assert(per@ =~= all.skip(i + 1));
        }
        by_provider.push((p.slug, ProviderStatsOut { searches: p.searches, errors: p.errors, avg_latency_ms: p.avg_latency_ms }));
        proof { i = i + 1; }
    }
    StatsResponse { window_5m, by_provider }
}

// ---------------------------------------------------------------------------
// Content requests
// ---------------------------------------------------------------------------

/// The most URLs one content request takes.
pub const MAX_URLS: usize = 50;

/// The time a content request may take unless it says otherwise.
pub const DEFAULT_CONTENT_TIMEOUT_MS: u64 = 20_000;

/// A request for the content of some pages.
pub struct ContentsRequest {
    pub urls: Vec<String>,
    /// "markdown" (the default), "html" or "text".
    pub format: Option<String>,
    /// A focus hint for the providers that take one.
    pub objective: Option<String>,
    /// Restricts the extractors to a group's members.
    pub group: Option<String>,
    pub max_fallbacks: Option<usize>,
    pub timeout_ms: Option<u64>,
    /// Skips the document cache and always fetches.
    pub fresh: bool,
    pub debug: bool,
}

/// What one content fetch is asked to do: the URLs still to fetch after the
/// cache was consulted.
pub struct ContentParams {
    pub urls: Vec<String>,
    pub format: String,
    pub objective: Option<String>,
    pub group_slug: Option<String>,
    pub timeout_ms: u64,
    pub max_fallbacks: usize,
    pub debug: bool,
}

/// The summary of a content answer.
pub struct ContentsMeta {
    pub providers_used: Vec<String>,
    pub fallback_chain: String,
    pub cache_hits: usize,
    pub n_ok: usize,
    pub n_failed: usize,
    pub duration_ms: u64,
}

/// Whether a format name is one that content can be had in.
pub open spec fn known_format(f: Seq<char>) -> bool {
    f == "markdown"@ || f == "html"@ || f == "text"@
}

/// The format of a content request: "markdown" when none is given; any
/// name but markdown, html and text is refused with a 404.
pub fn normalize_format(raw: Option<&str>) -> (res: Result<String, AppError>)
    ensures
        ({
            let f = match raw {
                Some(r) => r@,
                None => "markdown"@,
            };
            if known_format(f) {
                res matches Ok(s) && s@ == f
            } else {
                res matches Err(e) && plain_error(
                    e,
                    404,
                    "unsupported format '"@ + f + "' (expected markdown|html|text)"@,
                    "not_found"@,
                )
            }
        }),
{
    let f: &str = match raw {
        Some(r) => r,
        None => "markdown",
    };
    if str_eq(f, "markdown") || str_eq(f, "html") || str_eq(f, "text") {
        Ok(to_owned_string(f))
    } else {
        Err(AppError::not_found(concat3("unsupported format '", f, "' (expected markdown|html|text)")))
    }
}

/// The requested URLs trimmed, without empty ones or repeats, in request
/// order.
pub open spec fn kept_urls(urls: Seq<String>, k: int) -> Seq<Seq<char>>
    decreases k,
{
    if k <= 0 {
        Seq::empty()
    } else {
        let before = kept_urls(urls, k - 1);
        let t = spec_trim(urls[k - 1]@);
        if t.len() > 0 && !before.contains(t) {
            before.push(t)
        } else {
            before
        }
    }
}

/// The URLs a content request fetches: each trimmed, empty ones and
/// repeats dropped, in request order, at most `MAX_URLS` of them.
pub fn prepare_urls(urls: &Vec<String>) -> (res: Vec<String>)
    ensures
        views(res@) == (if kept_urls(urls@, urls@.len() as int).len() <= 50 {
            kept_urls(urls@, urls@.len() as int)
        } else {
            kept_urls(urls@, urls@.len() as int).take(50)
        }),
{
    let mut out: Vec<String> = Vec::new();
    let mut i: usize = 0;
    while i < urls.len()
        invariant
            i <= urls@.len(),
            views(out@) == kept_urls(urls@, i as int),
        decreases urls.len() - i,
    {
        let t = trim(urls[i].as_str());
        proof { crate::text::lemma_has_iff_views_contains(out@, t@); }
        if t.unicode_len() > 0 && !contains_str(&out, t.as_str()) {
            let ghost before = out@;
            out.push(t);
            proof {
                assert(views(out@) =~= views(before).push(t@));
            }
        }
        i = i + 1;
    }
    let ghost full = out@;
    out.truncate(MAX_URLS);
    proof {
        if full.len() > 50 {
            assert(views(out@) =~= views(full).take(50));
        }
    }
    out
}

/// The URLs a content request fetches (see `prepare_urls`); a 404 when no
/// URL is left.
pub fn requested_urls(urls: &Vec<String>) -> (res: Result<Vec<String>, AppError>)
    ensures
        ({
            let kept = kept_urls(urls@, urls@.len() as int);
            let capped = if kept.len() <= 50 { kept } else { kept.take(50) };
            if capped.len() > 0 {
                res matches Ok(v) && views(v@) == capped
            } else {
                res matches Err(e) && plain_error(e, 404, "no urls provided"@, "not_found"@)
            }
        }),
{
    let kept = prepare_urls(urls);
    if kept.len() == 0 {
        proof {
            assert(views(kept@).len() == 0);
        }
        Err(AppError::not_found(to_owned_string("no urls provided")))
    } else {
        Ok(kept)
    }
}

/// What the document cache gives for one requested URL, and the cache
/// after: nothing for a fresh fetch; else the cached body of the URL when
/// it is still fresh and in the requested format (an expired entry is
/// dropped).
pub open spec fn lookup_step(
    url: Seq<char>,
    m: Map<Seq<char>, DocEntryView>,
    format: Seq<char>,
    fresh: bool,
    now: u64,
) -> (Option<FullContentView>, Map<Seq<char>, DocEntryView>) {
    if fresh {
        (None, m)
    } else {
        let key = spec_normalize(url);
        match m.get(key) {
            None => (None, m),
            Some(e) => if spec_expired(e.stored_at_ms, e.ttl_ms, now) {
                (None, m.remove(key))
            } else {
                match e.full_content {
                    Some(fc) => if fc.format == format { (Some(fc), m) } else { (None, m) },
                    None => (None, m),
                }
            },
        }
    }
}

/// What the cache gives for each requested URL in order, and the cache
/// after.
pub open spec fn lookup_all(
    urls: Seq<String>,
    m: Map<Seq<char>, DocEntryView>,
    format: Seq<char>,
    fresh: bool,
    now: u64,
) -> (Seq<Option<FullContentView>>, Map<Seq<char>, DocEntryView>)
    decreases urls.len(),
{
    if urls.len() == 0 {
        (Seq::empty(), m)
    } else {
        let before = lookup_all(urls.drop_last(), m, format, fresh, now);
        let step = lookup_step(urls.last()@, before.1, format, fresh, now);
        (before.0.push(step.0), step.1)
    }
}

/// The URLs that the cache could not serve.
pub open spec fn misses(urls: Seq<String>, found: Seq<Option<FullContentView>>) -> Seq<Seq<char>>
    decreases urls.len(),
{
    if urls.len() == 0 || found.len() == 0 {
        Seq::empty()
    } else if found.last() is None {
        misses(urls.drop_last(), found.drop_last()).push(urls.last()@)
    } else {
        misses(urls.drop_last(), found.drop_last())
    }
}

/// The URLs that the cache served, each with its body.
pub open spec fn hits(urls: Seq<String>, found: Seq<Option<FullContentView>>) -> Seq<(Seq<char>, FullContentView)>
    decreases urls.len(),
{
    if urls.len() == 0 || found.len() == 0 {
        Seq::empty()
    } else {
        match found.last() {
            Some(fc) => hits(urls.drop_last(), found.drop_last()).push((urls.last()@, fc)),
            None => hits(urls.drop_last(), found.drop_last()),
        }
    }
}

/// Whether `d` is the doc of a page served from the cache.
pub open spec fn is_cache_doc(d: ExtractedDoc, url: Seq<char>, fc: FullContentView) -> bool {
    &&& d.url@ == url
    &&& d.title is None
    &&& d.published_date is None
    &&& opt_content_view(d.content) == Some(fc)
    &&& d.source@ == "cache"@
    &&& d.error is None
}

/// Serves what it can of a content request from the document cache: a doc
/// sourced from "cache" for each URL whose fresh cached body is in the
/// requested format (unless the request is fresh), and the URLs left to
/// fetch.
pub fn serve_from_cache(
    urls: &Vec<String>,
    format: &str,
    fresh: bool,
    docs: &mut DocCache,
    now: u64,
) -> (res: (Vec<ExtractedDoc>, Vec<String>))
    ensures
        final(docs)@ == lookup_all(urls@, old(docs)@, format@, fresh, now).1,
        views(res.1@) == misses(urls@, lookup_all(urls@, old(docs)@, format@, fresh, now).0),
        res.0@.len() == hits(urls@, lookup_all(urls@, old(docs)@, format@, fresh, now).0).len(),
        forall|j: int| 0 <= j < res.0@.len() ==> {
            let h = hits(urls@, lookup_all(urls@, old(docs)@, format@, fresh, now).0)[j];
            is_cache_doc(#[trigger] res.0@[j], h.0, h.1)
        },
{
    let mut served: Vec<ExtractedDoc> = Vec::new();
    let mut to_fetch: Vec<String> = Vec::new();
    let mut i: usize = 0;
    let ghost start = docs@;
    while i < urls.len()
        invariant
            i <= urls@.len(),
            start == old(docs)@,
            docs@ == lookup_all(urls@.take(i as int), start, format@, fresh, now).1,
            lookup_all(urls@.take(i as int), start, format@, fresh, now).0.len() == i,
            views(to_fetch@) == misses(urls@.take(i as int), lookup_all(urls@.take(i as int), start, format@, fresh, now).0),
            served@.len() == hits(urls@.take(i as int), lookup_all(urls@.take(i as int), start, format@, fresh, now).0).len(),
            forall|j: int| 0 <= j < served@.len() ==> {
                let h = hits(urls@.take(i as int), lookup_all(urls@.take(i as int), start, format@, fresh, now).0)[j];
                is_cache_doc(#[trigger] served@[j], h.0, h.1)
            },
        decreases urls.len() - i,
    {
        let url = &urls[i];
        let ghost pre = urls@.take(i as int);
        let ghost post = urls@.take(i + 1);
        proof {
            assert(post.drop_last() =~= pre);
            assert(post.last() == *url);
        }
        let ghost before_found = lookup_all(pre, start, format@, fresh, now).0;
        let ghost after_found = lookup_all(post, start, format@, fresh, now).0;
        proof {
            assert(after_found.drop_last() =~= before_found);
        }
        let mut found: Option<FullContent> = None;
        if !fresh {
            match docs.get(url.as_str(), now) {
                Some(e) => match e.full_content {
                    Some(fc) => {
                        if str_eq(fc.format.as_str(), format) {
                            found = Some(fc);
                        }
                    },
                    None => {},
                },
                None => {},
            }
        }
        proof {
            assert(opt_content_view(found) == after_found.last());
        }
        match found {
            Some(fc) => {
                let ghost before_served = served@;
                served.push(ExtractedDoc {
                    url: url.clone(),
                    title: None,
                    published_date: None,
                    content: Some(fc),
                    source: to_owned_string("cache"),
                    error: None,
                });
                proof {
                    assert(hits(post, after_found) == hits(pre, before_found).push((url@, after_found.last().unwrap())));
                    assert forall|j: int| 0 <= j < served@.len() implies {
                        let h = hits(post, after_found)[j];
                        is_cache_doc(#[trigger] served@[j], h.0, h.1)
                    } by {
                        if j < before_served.len() {
                            assert(served@[j] == before_served[j]);
                        }
                    }
                    assert(misses(post, after_found) == misses(pre, before_found));
                }
            },
            None => {
                let ghost before_fetch = to_fetch@;
                to_fetch.push(url.clone());
                proof {
                    assert(views(to_fetch@) =~= views(before_fetch).push(url@));
                    assert(misses(post, after_found) == misses(pre, before_found).push(url@));
                    assert(hits(post, after_found) == hits(pre, before_found));
                }
            },
        }
        i = i + 1;
    }
    proof {
        assert(urls@.take(urls@.len() as int) =~= urls@);
    }
    (served, to_fetch)
}

/// The docs of the requested URLs in request order, each URL's doc at most
/// once, URLs without a doc skipped.
pub open spec fn in_request_order(table: Seq<ExtractedDoc>, urls: Seq<String>, k: int) -> Seq<ExtractedDoc>
    decreases k,
{
    if k <= 0 {
        Seq::empty()
    } else {
        let before = in_request_order(table, urls, k - 1);
        let u = urls[k - 1]@;
        let earlier = exists|j: int| 0 <= j < k - 1 && #[trigger] urls[j]@ == u;
        match doc_pos(table, u) {
            Some(p) => if earlier { before } else { before.push(table[p]) },
            None => before,
        }
    }
}

fn put_all(table: &mut Vec<ExtractedDoc>, docs: Vec<ExtractedDoc>)
    ensures
        final(table)@ == table_of_from(old(table)@, docs@, docs@.len() as int),
{
    let ghost all = docs@;
    let mut rest = docs;
    let ghost mut i: int = 0;
    proof { assert(rest@ =~= all.skip(0)); }
    while rest.len() > 0
        invariant
            0 <= i <= all.len(),
            rest@ == all.skip(i),
            table@ == table_of_from(old(table)@, all, i),
        decreases rest.len(),
    {
        let d = rest.remove(0);
        proof {
            assert(d == all[i]);
            assert(rest@ =~= all.skip(i + 1));
        }
        crate::content::store_doc(table, d);
        proof { i = i + 1; }
    }
}

/// `table` with the first `k` docs stored in order.
pub open spec fn table_of_from(table: Seq<ExtractedDoc>, docs: Seq<ExtractedDoc>, k: int) -> Seq<ExtractedDoc>
    decreases k,
{
    if k <= 0 {
        table
    } else {
        put_doc(table_of_from(table, docs, k - 1), docs[k - 1])
    }
}

/// The docs of a content answer in request order: the docs served from the
/// cache, replaced by fetched ones for the same URL, one per requested URL.
pub fn merge_docs(urls: &Vec<String>, served: Vec<ExtractedDoc>, fetched: Vec<ExtractedDoc>) -> (res: Vec<ExtractedDoc>)
    ensures
        res@ == in_request_order(
            table_of_from(table_of_from(Seq::empty(), served@, served@.len() as int), fetched@, fetched@.len() as int),
            urls@,
            urls@.len() as int,
        ),
{
    let mut table: Vec<ExtractedDoc> = Vec::new();
    put_all(&mut table, served);
    put_all(&mut table, fetched);
    let ghost t = table@;
    let mut taken: Vec<bool> = Vec::new();
    let mut k: usize = 0;
    while k < table.len()
        invariant
            k <= table@.len(),
            taken@.len() == k,
            forall|j: int| 0 <= j < k ==> !taken@[j],
        decreases table.len() - k,
    {
        taken.push(false);
        k = k + 1;
    }
    let mut out: Vec<ExtractedDoc> = Vec::new();
    let mut i: usize = 0;
    while i < urls.len()
        invariant
            i <= urls@.len(),
            table@.len() == t.len(),
            taken@.len() == t.len(),
            forall|j: int| 0 <= j < t.len() ==> table@[j].url@ == t[j].url@,
            forall|j: int| 0 <= j < t.len() && !taken@[j] ==> table@[j] == t[j],
            forall|j: int| 0 <= j < t.len() && taken@[j] ==> exists|a: int| 0 <= a < i && #[trigger] urls@[a]@ == t[j].url@,
            forall|a: int| 0 <= a < i ==> match doc_pos(t, #[trigger] urls@[a]@) {
                Some(p) => taken@[p],
                None => true,
            },
            out@ == in_request_order(t, urls@, i as int),
        decreases urls.len() - i,
    {
        let u = urls[i].as_str();
        let ghost before_taken = taken@;
        proof { crate::content::lemma_doc_pos(t, u@); }
        match crate::content::find_doc(&table, u) {
            Some(p) => {
                proof {
                    lemma_same_url_positions(table@, t, u@);
                }
                if !taken[p] {
                    let placeholder = ExtractedDoc {
                        url: table[p].url.clone(),
                        title: None,
                        published_date: None,
                        content: None,
                        source: String::new(),
                        error: None,
                    };
                    let ghost before_table = table@;
                    let d = table.remove(p);
                    table.insert(p, placeholder);
                    taken.set(p, true);
                    proof {
                        assert(d == before_table[p as int]);
                        assert(table@ =~= before_table.update(p as int, placeholder));
                        assert(!exists|a: int| 0 <= a < i && #[trigger] urls@[a]@ == u@) by {
                            if exists|a: int| 0 <= a < i && #[trigger] urls@[a]@ == u@ {
                                let a = choose|a: int| 0 <= a < i && #[trigger] urls@[a]@ == u@;
                                assert(doc_pos(t, urls@[a]@) == Some(p as int));
                            }
                        }
                    }
                    out.push(d);
                } else {
                    proof {
                        let a = choose|a: int| 0 <= a < i && #[trigger] urls@[a]@ == t[p as int].url@;
                        assert(urls@[a]@ == u@);
                    }
                }
            },
            None => {
                proof { lemma_same_url_positions(table@, t, u@); }
            },
        }
        proof {
            assert forall|a: int| 0 <= a < i + 1 implies match doc_pos(t, #[trigger] urls@[a]@) {
                Some(p) => taken@[p],
                None => true,
            } by {
                crate::content::lemma_doc_pos(t, urls@[a]@);
                if a < i {
                    match doc_pos(t, urls@[a]@) {
                        Some(p) => {
                            assert(before_taken[p]);
                        },
                        None => {},
                    }
                }
            }
        }
        i = i + 1;
    }
    out
}

/// The document cache after stashing the bodies of the first `k` fetched
/// docs, each under its normalized URL, stored at `now` for `ttl_ms`; a doc
/// without a body stores nothing.
pub open spec fn stash_fetched(
    m: Map<Seq<char>, DocEntryView>,
    fetched: Seq<ExtractedDoc>,
    ttl_ms: u64,
    now: u64,
    k: int,
) -> Map<Seq<char>, DocEntryView>
    decreases k,
{
    if k <= 0 {
        m
    } else {
        let before = stash_fetched(m, fetched, ttl_ms, now, k - 1);
        match fetched[k - 1].content {
            Some(fc) => before.insert(
                spec_normalize(fetched[k - 1].url@),
                DocEntryView { full_content: Some(fc@), extra_snippets: None, stored_at_ms: now, ttl_ms },
            ),
            None => before,
        }
    }
}

/// The docs of a content answer and its counts: stashes the fetched bodies
/// in the document cache for later requests and searches, then answers the
/// docs in request order (see `merge_docs`), with how many carry content and
/// how many do not.
pub fn compose_contents(
    urls: &Vec<String>,
    served: Vec<ExtractedDoc>,
    fetched: Vec<ExtractedDoc>,
    docs: &mut DocCache,
    ttl_ms: u64,
    now: u64,
) -> (res: (Vec<ExtractedDoc>, usize, usize))
    ensures
        final(docs)@ == stash_fetched(old(docs)@, fetched@, ttl_ms, now, fetched@.len() as int),
        res.0@ == in_request_order(
            table_of_from(table_of_from(Seq::empty(), served@, served@.len() as int), fetched@, fetched@.len() as int),
            urls@,
            urls@.len() as int,
        ),
        res.1 == res.0@.filter(|d: ExtractedDoc| d.content is Some).len(),
        res.1 + res.2 == res.0@.len(),
{
    let mut i: usize = 0;
    while i < fetched.len()
        invariant
            i <= fetched@.len(),
            docs@ == stash_fetched(old(docs)@, fetched@, ttl_ms, now, i as int),
        decreases fetched.len() - i,
    {
        let d = &fetched[i];
        match &d.content {
            Some(fc) => {
                docs.set(d.url.as_str(), Some(fc.copy()), None, ttl_ms, now);
            },
            None => {},
        }
        i = i + 1;
    }
    let merged = merge_docs(urls, served, fetched);
    let (ok, failed) = count_outcomes(&merged);
    (merged, ok, failed)
}

/// Each answered doc is the doc kept for a requested URL.
pub open spec fn answers_requested(table: Seq<ExtractedDoc>, urls: Seq<String>, k: int, r: Seq<ExtractedDoc>) -> bool {
    &&& r.len() <= k
    &&& forall|j: int| 0 <= j < r.len() ==> (doc_pos(table, #[trigger] r[j].url@) matches Some(p) && table[p] == r[j])
    &&& forall|j: int| 0 <= j < r.len() ==> exists|i: int| 0 <= i < k && #[trigger] urls[i]@ == (#[trigger] r[j]).url@
}

/// No two answered docs share a URL.
pub open spec fn urls_distinct(r: Seq<ExtractedDoc>) -> bool {
    forall|a: int, b: int| 0 <= a < b < r.len() ==> r[a].url@ != r[b].url@
}

/// Every requested URL that has a doc is answered.
pub open spec fn requested_answered(table: Seq<ExtractedDoc>, urls: Seq<String>, k: int, r: Seq<ExtractedDoc>) -> bool {
    forall|i: int| 0 <= i < k && (doc_pos(table, #[trigger] urls[i]@) is Some)
        ==> exists|j: int| 0 <= j < r.len() && (#[trigger] r[j]).url@ == urls[i]@
}

proof fn lemma_answers_requested(table: Seq<ExtractedDoc>, urls: Seq<String>, k: int)
    requires
        0 <= k <= urls.len(),
    ensures
        answers_requested(table, urls, k, in_request_order(table, urls, k)),
    decreases k,
{
    if k > 0 {
        lemma_answers_requested(table, urls, k - 1);
        let before = in_request_order(table, urls, k - 1);
        let r = in_request_order(table, urls, k);
        let u = urls[k - 1]@;
        crate::content::lemma_doc_pos(table, u);
        assert forall|j: int| 0 <= j < r.len() implies exists|i: int| 0 <= i < k && #[trigger] urls[i]@ == (#[trigger] r[j]).url@ by {
            if j < before.len() {
                assert(r[j] == before[j]);
                let i = choose|i: int| 0 <= i < k - 1 && #[trigger] urls[i]@ == before[j].url@;
                assert(urls[i]@ == r[j].url@);
            } else {
                assert(urls[k - 1]@ == r[j].url@);
            }
        }
        assert forall|j: int| 0 <= j < r.len() implies (doc_pos(table, #[trigger] r[j].url@) matches Some(q) && table[q] == r[j]) by {
            if j < before.len() {
                assert(r[j] == before[j]);
            }
        }
    }
}

proof fn lemma_urls_distinct(table: Seq<ExtractedDoc>, urls: Seq<String>, k: int)
    requires
        0 <= k <= urls.len(),
    ensures
        urls_distinct(in_request_order(table, urls, k)),
    decreases k,
{
    if k > 0 {
        lemma_urls_distinct(table, urls, k - 1);
        lemma_answers_requested(table, urls, k - 1);
        let before = in_request_order(table, urls, k - 1);
        let r = in_request_order(table, urls, k);
        let u = urls[k - 1]@;
        crate::content::lemma_doc_pos(table, u);
        let earlier = exists|j: int| 0 <= j < k - 1 && #[trigger] urls[j]@ == u;
        if r.len() > before.len() {
            assert(!earlier);
            assert forall|a: int, b: int| 0 <= a < b < r.len() implies r[a].url@ != r[b].url@ by {
                assert(r[a] == before[a]);
                if b < before.len() {
                    assert(r[b] == before[b]);
                } else {
                    let i = choose|i: int| 0 <= i < k - 1 && #[trigger] urls[i]@ == before[a].url@;
                    assert(urls[i]@ == before[a].url@);
                }
            }
        }
    }
}

proof fn lemma_requested_answered(table: Seq<ExtractedDoc>, urls: Seq<String>, k: int)
    requires
        0 <= k <= urls.len(),
    ensures
        requested_answered(table, urls, k, in_request_order(table, urls, k)),
    decreases k,
{
    if k > 0 {
        lemma_requested_answered(table, urls, k - 1);
        let before = in_request_order(table, urls, k - 1);
        let r = in_request_order(table, urls, k);
        let u = urls[k - 1]@;
        crate::content::lemma_doc_pos(table, u);
        assert(r.len() >= before.len());
        assert forall|j: int| 0 <= j < before.len() implies r[j] == before[j] by {}
        assert forall|i: int| 0 <= i < k && (doc_pos(table, #[trigger] urls[i]@) is Some)
            implies exists|j: int| 0 <= j < r.len() && (#[trigger] r[j]).url@ == urls[i]@ by {
            if i < k - 1 {
                let j = choose|j: int| 0 <= j < before.len() && (#[trigger] before[j]).url@ == urls[i]@;
                assert(r[j] == before[j]);
            } else if exists|j: int| 0 <= j < k - 1 && #[trigger] urls[j]@ == u {
                let i0 = choose|j: int| 0 <= j < k - 1 && #[trigger] urls[j]@ == u;
                assert(doc_pos(table, urls[i0]@) is Some);
                let j = choose|j: int| 0 <= j < before.len() && (#[trigger] before[j]).url@ == urls[i0]@;
                assert(r[j] == before[j]);
            } else {
                assert(r[before.len() as int].url@ == urls[i]@);
            }
        }
    }
}

/// The docs of a content answer follow the request: each is the doc kept
/// for one requested URL, no URL is answered twice, there are no more docs
/// than requested URLs, and every requested URL that has a doc is answered.
pub proof fn law_contents_follow_request(table: Seq<ExtractedDoc>, urls: Seq<String>, k: int)
    requires
        0 <= k <= urls.len(),
    ensures
        answers_requested(table, urls, k, in_request_order(table, urls, k)),
        urls_distinct(in_request_order(table, urls, k)),
        requested_answered(table, urls, k, in_request_order(table, urls, k)),
{
    lemma_answers_requested(table, urls, k);
    lemma_urls_distinct(table, urls, k);
    lemma_requested_answered(table, urls, k);
}

proof fn lemma_same_url_positions(a: Seq<ExtractedDoc>, b: Seq<ExtractedDoc>, url: Seq<char>)
    requires
        a.len() == b.len(),
        forall|j: int| 0 <= j < a.len() ==> a[j].url@ == b[j].url@,
    ensures
        doc_pos(a, url) == doc_pos(b, url),
    decreases a.len(),
{
    if a.len() > 0 {
        lemma_same_url_positions(a.drop_last(), b.drop_last(), url);
    }
}

/// The number of docs with content and the number without.
pub fn count_outcomes(docs: &Vec<ExtractedDoc>) -> (res: (usize, usize))
    ensures
        res.0 == docs@.filter(|d: ExtractedDoc| d.content is Some).len(),
        res.0 + res.1 == docs@.len(),
{
    let mut ok: usize = 0;
    let mut i: usize = 0;
    proof { reveal(Seq::filter); }
    while i < docs.len()
        invariant
            i <= docs@.len(),
            ok == docs@.take(i as int).filter(|d: ExtractedDoc| d.content is Some).len(),
            ok <= i,
        decreases docs.len() - i,
    {
        proof {
            reveal(Seq::filter);
            assert(docs@.take(i + 1).drop_last() =~= docs@.take(i as int));
        }
        if docs[i].content.is_some() {
            ok = ok + 1;
        }
        i = i + 1;
    }
    proof {
        assert(docs@.take(docs@.len() as int) =~= docs@);
    }
    (ok, docs.len() - ok)
}

// ---------------------------------------------------------------------------
// Admin requests
// ---------------------------------------------------------------------------

/// A request to create a group.
pub struct CreateGroupRequest {
    pub slug: String,
    pub name: String,
    pub description: Option<String>,
}

/// A request to add a key to a group.
pub struct AddMemberRequest {
    pub api_key_id: String,
    pub priority: Option<i64>,
}

/// A request to change fields of a key; an absent field stays as it is.
pub struct UpdateKeyRequest {
    pub label: Option<String>,
    pub is_active: Option<bool>,
    pub key_ref: Option<String>,
    pub rpm_limit: Option<Option<i64>>,
    pub rpd_limit: Option<Option<i64>>,
}

/// The group a create request describes, active, under the id `id`.
pub fn new_group(id: String, req: CreateGroupRequest) -> (res: Group)
    ensures
        res.id == id,
        res.slug == req.slug,
        res.name == req.name,
        res.description == req.description,
        res.is_active,
        res.created_at@.len() == 0,
{
    Group { id, slug: req.slug, name: req.name, description: req.description, is_active: true, created_at: String::new() }
}

/// The priority of a new group member: the requested one, or 0.
pub fn member_priority(req: &AddMemberRequest) -> (res: i64)
    ensures
        res == (match req.priority {
            Some(p) => p,
            None => 0,
        }),
{
    match req.priority {
        Some(p) => p,
        None => 0,
    }
}

/// The id of the first group with this slug; a 404 naming the slug when
/// there is none.
pub fn group_id_by_slug(groups: &Vec<Group>, slug: &str) -> (res: Result<String, AppError>)
    ensures
        match res {
            Ok(id) => exists|i: int| 0 <= i < groups@.len() && groups@[i].slug@ == slug@ && id@ == groups@[i].id@
                && forall|j: int| 0 <= j < i ==> groups@[j].slug@ != slug@,
            Err(e) => (forall|i: int| 0 <= i < groups@.len() ==> groups@[i].slug@ != slug@)
                && plain_error(e, 404, "Group '"@ + slug@ + "' not found"@, "not_found"@),
        },
{
    let mut i: usize = 0;
    while i < groups.len()
        invariant
            i <= groups@.len(),
            forall|j: int| 0 <= j < i ==> groups@[j].slug@ != slug@,
        decreases groups.len() - i,
    {
        if str_eq(groups[i].slug.as_str(), slug) {
            return Ok(groups[i].id.clone());
        }
        i = i + 1;
    }
    Err(AppError::not_found(concat3("Group '", slug, "' not found")))
}

/// An enriched request never shares the plain requests' discriminator: the
/// discriminator is empty exactly when no enrichment is asked for.
pub proof fn law_enrichment_key_empty_iff_plain(
    extra_snippets: bool,
    full_content: Option<Seq<char>>,
    max_snippets: Option<usize>,
    min_score: Option<Seq<char>>,
    include_domains: Seq<Seq<char>>,
    exclude_domains: Seq<Seq<char>>,
)
    ensures
        (spec_enrichment_key(extra_snippets, full_content, max_snippets, min_score, include_domains, exclude_domains).len() == 0)
            <==> (!extra_snippets && full_content is None),
{
    if extra_snippets || full_content is Some {
        let k = spec_enrichment_key(extra_snippets, full_content, max_snippets, min_score, include_domains, exclude_domains);
        assert(k.len() >= "es="@.len()) by {
            reveal_strlit("es=");
        }
        reveal_strlit("es=");
    }
}

/// The summary of a search answer.
pub struct SearchMeta {
    pub provider: String,
    pub api_key_id: String,
    pub fallback_chain: String,
    pub cache_hit: bool,
    pub duration_ms: u64,
    pub n_returned: usize,
}

/// The summary of an answer served from the results cache: the provider
/// and key that produced it, the chain `slug:cached`, no time spent.
pub fn cached_meta(entry: &crate::cache::CacheEntry) -> (res: SearchMeta)
    ensures
        res.provider@ == entry.provider_slug@,
        res.api_key_id@ == entry.api_key_id@,
        res.fallback_chain@ == entry.provider_slug@ + ":cached"@,
        res.cache_hit,
        res.duration_ms == 0,
        res.n_returned == entry.results@.len(),
{
    SearchMeta {
        provider: entry.provider_slug.clone(),
        api_key_id: entry.api_key_id.clone(),
        fallback_chain: cached_chain(entry.provider_slug.as_str()),
        cache_hit: true,
        duration_ms: 0,
        n_returned: entry.results.len(),
    }
}

} // verus!
