//! Catalog records: providers, their API keys, groups, and the results that
//! flow back from a search.

use vstd::prelude::*;

verus! {

/// The view of an optional string.
pub open spec fn opt_str_view(o: Option<String>) -> Option<Seq<char>> {
    match o {
        Some(s) => Some(s@),
        None => None,
    }
}

/// Copies an optional string, keeping its contents.
pub fn copy_opt_string(o: &Option<String>) -> (res: Option<String>)
    ensures
        opt_str_view(res) == opt_str_view(*o),
{
    match o {
        Some(s) => Some(s.clone()),
        None => None,
    }
}

/// A search provider as the catalog stores it. Its per-locale coverage
/// scores are fractional and are kept outside the verified library.
#[derive(Debug, Clone)]
pub struct Provider {
    pub id: String,
    pub slug: String,
    pub name: String,
    pub base_url: Option<String>,
    pub is_active: bool,
    pub priority: i64,
    pub avg_latency_ms: Option<i64>,
    pub notes: Option<String>,
    pub created_at: String,
    pub no_cache: bool,
}

pub struct ProviderView {
    pub id: Seq<char>,
    pub slug: Seq<char>,
    pub name: Seq<char>,
    pub base_url: Option<Seq<char>>,
    pub is_active: bool,
    pub priority: i64,
    pub avg_latency_ms: Option<i64>,
    pub notes: Option<Seq<char>>,
    pub created_at: Seq<char>,
    pub no_cache: bool,
}

impl View for Provider {
    type V = ProviderView;

    open spec fn view(&self) -> ProviderView {
        ProviderView {
            id: self.id@,
            slug: self.slug@,
            name: self.name@,
            base_url: opt_str_view(self.base_url),
            is_active: self.is_active,
            priority: self.priority,
            avg_latency_ms: self.avg_latency_ms,
            notes: opt_str_view(self.notes),
            created_at: self.created_at@,
            no_cache: self.no_cache,
        }
    }
}

impl Provider {
    /// A field-by-field copy.
    pub fn copy(&self) -> (res: Provider)
        ensures
            res@ == self@,
    {
        Provider {
            id: self.id.clone(),
            slug: self.slug.clone(),
            name: self.name.clone(),
            base_url: copy_opt_string(&self.base_url),
            is_active: self.is_active,
            priority: self.priority,
            avg_latency_ms: self.avg_latency_ms,
            notes: copy_opt_string(&self.notes),
            created_at: self.created_at.clone(),
            no_cache: self.no_cache,
        }
    }
}

/// An API key reference of a provider. `key_ref` names where the secret
/// lives; the secret itself is never stored. The fractional per-second limit
/// is kept outside the verified library.
#[derive(Debug, Clone)]
pub struct ApiKey {
    pub id: String,
    pub provider_id: String,
    pub label: String,
    pub key_ref: String,
    pub is_active: bool,
    pub rpm_limit: Option<i64>,
    pub rpd_limit: Option<i64>,
    pub last_used_at: Option<String>,
    pub created_at: String,
}

pub struct ApiKeyView {
    pub id: Seq<char>,
    pub provider_id: Seq<char>,
    pub label: Seq<char>,
    pub key_ref: Seq<char>,
    pub is_active: bool,
    pub rpm_limit: Option<i64>,
    pub rpd_limit: Option<i64>,
    pub last_used_at: Option<Seq<char>>,
    pub created_at: Seq<char>,
}

impl View for ApiKey {
    type V = ApiKeyView;

    open spec fn view(&self) -> ApiKeyView {
        ApiKeyView {
            id: self.id@,
            provider_id: self.provider_id@,
            label: self.label@,
            key_ref: self.key_ref@,
            is_active: self.is_active,
            rpm_limit: self.rpm_limit,
            rpd_limit: self.rpd_limit,
            last_used_at: opt_str_view(self.last_used_at),
            created_at: self.created_at@,
        }
    }
}

impl ApiKey {
    /// A field-by-field copy.
    pub fn copy(&self) -> (res: ApiKey)
        ensures
            res@ == self@,
    {
        ApiKey {
            id: self.id.clone(),
            provider_id: self.provider_id.clone(),
            label: self.label.clone(),
            key_ref: self.key_ref.clone(),
            is_active: self.is_active,
            rpm_limit: self.rpm_limit,
            rpd_limit: self.rpd_limit,
            last_used_at: copy_opt_string(&self.last_used_at),
            created_at: self.created_at.clone(),
        }
    }
}

#[derive(Debug, Clone)]
pub struct Group {
    pub id: String,
    pub slug: String,
    pub name: String,
    pub description: Option<String>,
    pub is_active: bool,
    pub created_at: String,
}

#[derive(Debug, Clone)]
pub struct GroupMember {
    pub id: String,
    pub group_id: String,
    pub api_key_id: String,
    pub priority: i64,
    pub is_enabled: bool,
}

/// Extracted page body attached to a result or a content fetch.
#[derive(Debug, Clone)]
pub struct FullContent {
    pub text: String,
    pub format: String,
    pub length: usize,
}

pub struct FullContentView {
    pub text: Seq<char>,
    pub format: Seq<char>,
    pub length: usize,
}

impl View for FullContent {
    type V = FullContentView;

    open spec fn view(&self) -> FullContentView {
        FullContentView { text: self.text@, format: self.format@, length: self.length }
    }
}

impl FullContent {
    /// A field-by-field copy.
    pub fn copy(&self) -> (res: FullContent)
        ensures
            res@ == self@,
    {
        FullContent { text: self.text.clone(), format: self.format.clone(), length: self.length }
    }
}

/// The view of an optional page body.
pub open spec fn opt_content_view(o: Option<FullContent>) -> Option<FullContentView> {
    match o {
        Some(c) => Some(c@),
        None => None,
    }
}

/// Copies an optional page body, keeping its contents.
pub fn copy_opt_content(o: &Option<FullContent>) -> (res: Option<FullContent>)
    ensures
        opt_content_view(res) == opt_content_view(*o),
{
    match o {
        Some(c) => Some(c.copy()),
        None => None,
    }
}

/// One extra scored chunk of a result page; the score is kept by the caller.
#[derive(Debug, Clone)]
pub struct ExtraSnippet {
    pub text: String,
}

/// The texts of optional extra snippets.
pub open spec fn opt_snippets_view(o: Option<Vec<ExtraSnippet>>) -> Option<Seq<Seq<char>>> {
    match o {
        Some(v) => Some(v@.map_values(|e: ExtraSnippet| e.text@)),
        None => None,
    }
}

/// Copies optional extra snippets, keeping their texts.
pub fn copy_opt_snippets(o: &Option<Vec<ExtraSnippet>>) -> (res: Option<Vec<ExtraSnippet>>)
    ensures
        opt_snippets_view(res) == opt_snippets_view(*o),
{
    match o {
        Some(v) => {
            let mut out: Vec<ExtraSnippet> = Vec::new();
            let mut i: usize = 0;
            while i < v.len()
                invariant
                    i <= v@.len(),
                    out@.map_values(|e: ExtraSnippet| e.text@) == v@.take(i as int).map_values(|e: ExtraSnippet| e.text@),
                decreases v.len() - i,
            {
                out.push(ExtraSnippet { text: v[i].text.clone() });
                proof {
                    assert(v@.take(i + 1).map_values(|e: ExtraSnippet| e.text@)
                        =~= v@.take(i as int).map_values(|e: ExtraSnippet| e.text@).push(v@[i as int].text@));
                    assert(out@.map_values(|e: ExtraSnippet| e.text@)
                        =~= v@.take(i as int).map_values(|e: ExtraSnippet| e.text@).push(v@[i as int].text@));
                }
                i = i + 1;
            }
            proof { assert(v@.take(v@.len() as int) =~= v@); }
            Some(out)
        },
        None => None,
    }
}

#[derive(Debug, Clone)]
pub struct SearchResult {
    pub url: String,
    pub title: String,
    pub snippet: String,
    pub domain: String,
    pub rank: usize,
    pub published_date: Option<String>,
    pub language: Option<String>,
    pub full_content: Option<FullContent>,
    pub extra_snippets: Option<Vec<ExtraSnippet>>,
}

pub struct SearchResultView {
    pub url: Seq<char>,
    pub title: Seq<char>,
    pub snippet: Seq<char>,
    pub domain: Seq<char>,
    pub rank: usize,
    pub published_date: Option<Seq<char>>,
    pub language: Option<Seq<char>>,
    pub full_content: Option<FullContentView>,
    pub extra_snippets: Option<Seq<Seq<char>>>,
}

impl View for SearchResult {
    type V = SearchResultView;

    open spec fn view(&self) -> SearchResultView {
        SearchResultView {
            url: self.url@,
            title: self.title@,
            snippet: self.snippet@,
            domain: self.domain@,
            rank: self.rank,
            published_date: opt_str_view(self.published_date),
            language: opt_str_view(self.language),
            full_content: opt_content_view(self.full_content),
            extra_snippets: opt_snippets_view(self.extra_snippets),
        }
    }
}

impl SearchResult {
    /// A field-by-field copy.
    pub fn copy(&self) -> (res: SearchResult)
        ensures
            res@ == self@,
    {
        SearchResult {
            url: self.url.clone(),
            title: self.title.clone(),
            snippet: self.snippet.clone(),
            domain: self.domain.clone(),
            rank: self.rank,
            published_date: copy_opt_string(&self.published_date),
            language: copy_opt_string(&self.language),
            full_content: copy_opt_content(&self.full_content),
            extra_snippets: copy_opt_snippets(&self.extra_snippets),
        }
    }
}

/// The views of a list of results.
pub open spec fn results_view(v: Seq<SearchResult>) -> Seq<SearchResultView> {
    v.map_values(|r: SearchResult| r@)
}

/// Copies a list of results, keeping each one's contents.
pub fn copy_results(v: &Vec<SearchResult>) -> (res: Vec<SearchResult>)
    ensures
        results_view(res@) == results_view(v@),
{
    let mut out: Vec<SearchResult> = Vec::new();
    let mut i: usize = 0;
    while i < v.len()
        invariant
            i <= v@.len(),
            results_view(out@) == results_view(v@.take(i as int)),
        decreases v.len() - i,
    {
        out.push(v[i].copy());
        proof {
            assert(results_view(v@.take(i + 1)) =~= results_view(v@.take(i as int)).push(v@[i as int]@));
            assert(results_view(out@) =~= results_view(v@.take(i as int)).push(v@[i as int]@));
        }
        i = i + 1;
    }
    proof { assert(v@.take(v@.len() as int) =~= v@); }
    out
}

#[derive(Debug, Clone)]
pub struct RateEvent {
    pub id: String,
    pub api_key_id: String,
    pub event_type: String,
    pub occurred_at: String,
}

#[derive(Debug, Clone)]
pub struct SearchLog {
    pub id: String,
    pub query_hash: String,
    pub group_slug: Option<String>,
    pub language: Option<String>,
    pub country: Option<String>,
    pub provider_slug: Option<String>,
    pub api_key_id: Option<String>,
    pub n_requested: Option<i64>,
    pub n_returned: Option<i64>,
    pub duration_ms: Option<i64>,
    pub cache_hit: bool,
    pub success: Option<bool>,
    pub error_type: Option<String>,
    pub fallback_chain: Option<String>,
    pub requested_at: String,
}

/// A (provider, api key) pair, with the member priority when it comes from a
/// group.
#[derive(Debug, Clone)]
pub struct Candidate {
    pub provider: Provider,
    pub api_key: ApiKey,
    /// Priority override from the group membership; `None` outside a group.
    pub member_priority: Option<i64>,
}

pub struct CandidateView {
    pub provider: ProviderView,
    pub api_key: ApiKeyView,
    pub member_priority: Option<i64>,
}

impl View for Candidate {
    type V = CandidateView;

    open spec fn view(&self) -> CandidateView {
        CandidateView { provider: self.provider@, api_key: self.api_key@, member_priority: self.member_priority }
    }
}

impl Candidate {
    pub open spec fn spec_effective_priority(&self) -> i64 {
        match self.member_priority {
            Some(p) => p,
            None => self.provider.priority,
        }
    }

    /// The group member priority when there is one, else the provider's.
    #[verifier::when_used_as_spec(spec_effective_priority)]
    pub fn effective_priority(&self) -> (res: i64)
        ensures
            res == self.spec_effective_priority(),
    {
        match self.member_priority {
            Some(p) => p,
            None => self.provider.priority,
        }
    }
}

} // verus!
