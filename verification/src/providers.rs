//! What the provider adapters share: their error kinds, the status codes
//! they map to errors, and the clean-up of the results they return.

use vstd::prelude::*;
use crate::models::{results_view, FullContent, SearchResult, SearchResultView};
use crate::text::{
    join, lowercase, skip_chars, spec_join, spec_starts_with, starts_with, str_eq, to_lowercase, views,
};
use crate::rate_limit::ErrorType;

verus! {

/// Output of a successful search. `effective_slug` names the sub-backend
/// that actually answered, for meta-providers that fan out.
pub struct SearchOutput {
    pub results: Vec<SearchResult>,
    pub effective_slug: Option<String>,
}

impl SearchOutput {
    pub fn new(results: Vec<SearchResult>) -> (res: SearchOutput)
        ensures
            res.results == results,
            res.effective_slug is None,
    {
        SearchOutput { results, effective_slug: None }
    }

    pub fn with_slug(results: Vec<SearchResult>, slug: String) -> (res: SearchOutput)
        ensures
            res.results == results,
            res.effective_slug == Some(slug),
    {
        SearchOutput { results, effective_slug: Some(slug) }
    }
}

/// Why a provider call failed.
#[derive(Debug)]
pub enum ProviderError {
    /// Rate limited (429).
    RateLimit,
    /// IP blocked or forbidden (403/401).
    Blocked,
    /// Request timed out.
    Timeout,
    /// No results returned.
    Empty,
    /// Any other HTTP error status.
    Http { status: u16, message: String },
    /// The response could not be parsed.
    Parse(String),
    /// The request could not be sent.
    Request(String),
}

impl ProviderError {
    /// The event kind of this error, used for cooldowns and rate events.
    pub open spec fn spec_error_type(&self) -> ErrorType {
        match self {
            ProviderError::RateLimit => ErrorType::Rpm,
            ProviderError::Blocked => ErrorType::Auth,
            ProviderError::Timeout => ErrorType::Timeout,
            ProviderError::Empty => ErrorType::Empty,
            _ => ErrorType::Error,
        }
    }

    /// The event kind of this error: `Rpm` for a rate limit, `Auth` when
    /// blocked, `Timeout`, `Empty`, and `Error` for everything else.
    pub fn error_type(&self) -> (res: ErrorType)
        ensures
            res == self.spec_error_type(),
    {
        match self {
            ProviderError::RateLimit => ErrorType::Rpm,
            ProviderError::Blocked => ErrorType::Auth,
            ProviderError::Timeout => ErrorType::Timeout,
            ProviderError::Empty => ErrorType::Empty,
            _ => ErrorType::Error,
        }
    }

    /// The event_type name used in rate events and cooldowns.
    pub fn error_type_str(&self) -> (res: &'static str)
        ensures
            res@ == self.spec_error_type().spec_name(),
    {
        self.error_type().as_str()
    }

    /// Whether the error points at the caller's IP (rate limit or block).
    pub fn is_ip_related(&self) -> (res: bool)
        ensures
            res == (self is RateLimit || self is Blocked),
    {
        match self {
            ProviderError::RateLimit | ProviderError::Blocked => true,
            _ => false,
        }
    }
}


/// What an HTTP status means for a provider call.
#[derive(Debug, Clone, Copy, PartialEq, Eq, Structural)]
pub enum StatusClass {
    Success,
    RateLimit,
    Blocked,
    /// Any other status outside 200..300.
    Failure,
}

/// Classifies an HTTP status: 429 is a rate limit, 403 (and 401 where
/// `auth_401` is set) a block, 2xx success, anything else a failure.
pub open spec fn spec_classify_status(status: u16, auth_401: bool) -> StatusClass {
    if status == 429 {
        StatusClass::RateLimit
    } else if status == 403 || (auth_401 && status == 401) {
        StatusClass::Blocked
    } else if 200 <= status < 300 {
        StatusClass::Success
    } else {
        StatusClass::Failure
    }
}

/// Classifies an HTTP status returned by a provider. Adapters that treat 401
/// as a block pass `auth_401`.
pub fn classify_status(status: u16, auth_401: bool) -> (res: StatusClass)
    ensures
        res == spec_classify_status(status, auth_401),
{
    if status == 429 {
        StatusClass::RateLimit
    } else if status == 403 || (auth_401 && status == 401) {
        StatusClass::Blocked
    } else if 200 <= status && status < 300 {
        StatusClass::Success
    } else {
        StatusClass::Failure
    }
}

/// The error for a non-success status: 429 a rate limit, 401/403 a block,
/// anything outside 200..300 an HTTP error with an empty message; `None`
/// for success.
pub fn map_status(status: u16) -> (res: Option<ProviderError>)
    ensures
        spec_classify_status(status, true) == StatusClass::Success <==> res is None,
        spec_classify_status(status, true) == StatusClass::RateLimit <==> res matches Some(ProviderError::RateLimit),
        spec_classify_status(status, true) == StatusClass::Blocked <==> res matches Some(ProviderError::Blocked),
        spec_classify_status(status, true) == StatusClass::Failure <==> res matches Some(ProviderError::Http { .. }),
        res matches Some(ProviderError::Http { status: s, message: m }) ==> s == status && m@.len() == 0,
{
    match classify_status(status, true) {
        StatusClass::RateLimit => Some(ProviderError::RateLimit),
        StatusClass::Blocked => Some(ProviderError::Blocked),
        StatusClass::Failure => Some(ProviderError::Http { status, message: String::new() }),
        StatusClass::Success => None,
    }
}

/// The host of an absolute URL, as the `url` crate parses it.
pub uninterp spec fn url_host(s: Seq<char>) -> Option<Seq<char>>;

/// Trusted: calls `url::Url::parse` and reads the host with `host_str`. The
/// result depends on the string alone; what it is stays under the name
/// `url_host` (`None` when the string is not an absolute URL or has no host).
#[verifier::external_body]
fn parse_url_host(s: &str) -> (res: Option<String>)
    ensures
        match res {
            Some(h) => url_host(s@) == Some(h@),
            None => url_host(s@) is None,
        },
{
    url::Url::parse(s).ok().and_then(|u| u.host_str().map(|h| h.to_string()))
}

pub open spec fn www_prefix() -> Seq<char> {
    seq!['w', 'w', 'w', '.']
}

/// `s` with every leading `www.` removed.
pub open spec fn strip_www(s: Seq<char>) -> Seq<char>
    decreases s.len(),
{
    if spec_starts_with(s, www_prefix()) {
        strip_www(s.skip(4))
    } else {
        s
    }
}

/// The canonical domain of a URL: its host without leading `www.`, or the
/// empty string when it has none.
pub open spec fn spec_extract_domain(url: Seq<char>) -> Seq<char> {
    match url_host(url) {
        Some(h) => strip_www(h),
        None => Seq::empty(),
    }
}

/// The canonical domain of a URL: its host without leading `www.`
/// prefixes, or "" when the URL does not parse or has no host.
pub fn extract_domain(url_str: &str) -> (res: String)
    ensures
        res@ == spec_extract_domain(url_str@),
{
    match parse_url_host(url_str) {
        Some(h) => {
            let www = "www.";
            proof { reveal_strlit("www."); }
            let mut cur = h;
            while starts_with(cur.as_str(), www)
                invariant
                    www@ == www_prefix(),
                    strip_www(cur@) == strip_www(h@),
                decreases cur@.len(),
            {
                cur = skip_chars(cur.as_str(), 4);
            }
            cur
        },
        None => String::new(),
    }
}

/// A result is kept when it has a domain and an absolute http(s) URL.
pub open spec fn keeps_result(r: SearchResult) -> bool {
    r.domain@.len() > 0 && (spec_starts_with(r.url@, "http://"@) || spec_starts_with(r.url@, "https://"@))
}

/// Drops results with relative URLs or unresolvable domains, keeping the
/// order of the others.
pub fn sanitize_results(results: Vec<SearchResult>) -> (res: Vec<SearchResult>)
    ensures
        res@ == results@.filter(|r: SearchResult| keeps_result(r)),
{
    let ghost input = results@;
    let mut rest = results;
    let mut out: Vec<SearchResult> = Vec::new();
    let ghost mut i: int = 0;
    proof {
        reveal(Seq::filter);
        assert(input.skip(0) =~= input);
        assert(input.take(0) =~= Seq::<SearchResult>::empty());
    }
    while rest.len() > 0
        invariant
            0 <= i <= input.len(),
            rest@ == input.skip(i),
            out@ == input.take(i).filter(|r: SearchResult| keeps_result(r)),
        decreases rest.len(),
    {
        let r = rest.remove(0);
        let http = "http://";
        let https = "https://";
        let keep = r.domain.unicode_len() > 0
            && (starts_with(r.url.as_str(), http) || starts_with(r.url.as_str(), https));
        proof {
            reveal(Seq::filter);
            assert(r == input[i]);
            assert(input.take(i + 1).drop_last() =~= input.take(i));
            assert(rest@ =~= input.skip(i + 1));
            i = i + 1;
        }
        if keep {
            out.push(r);
        }
    }
    proof {
        assert(input.take(i) =~= input);
    }
    out
}

/// Keeps at most `n` results when `n` is positive.
pub fn truncate_results(results: &mut Vec<SearchResult>, n: usize)
    ensures
        (n > 0 && old(results)@.len() > n) ==> final(results)@ == old(results)@.take(n as int),
        !(n > 0 && old(results)@.len() > n) ==> final(results)@ == old(results)@,
{
    if n > 0 && results.len() > n {
        results.truncate(n);
    }
}

/// The outcome of a provider's results: an `Empty` error when there are
/// none, else a plain search output.
pub fn finish_results(results: Vec<SearchResult>) -> (res: Result<SearchOutput, ProviderError>)
    ensures
        results@.len() == 0 ==> res matches Err(ProviderError::Empty),
        results@.len() > 0 ==> (res matches Ok(o) && o.results@ == results@ && o.effective_slug is None),
{
    if results.len() == 0 {
        Err(ProviderError::Empty)
    } else {
        Ok(SearchOutput::new(results))
    }
}

/// One hit as an adapter reads it from a provider response.
pub struct RawHit {
    pub url: String,
    pub title: String,
    pub snippet: String,
    pub published_date: Option<String>,
    pub language: Option<String>,
    pub full_content: Option<FullContent>,
}

/// Turns hits into results, ranked by their position, with the domain read
/// from each URL.
pub fn hits_to_results(hits: Vec<RawHit>) -> (res: Vec<SearchResult>)
    ensures
        res@.len() == hits@.len(),
        forall|i: int| 0 <= i < res@.len() ==> {
            let r = #[trigger] res@[i];
            let h = hits@[i];
            &&& r.url == h.url
            &&& r.title == h.title
            &&& r.snippet == h.snippet
            &&& r.domain@ == spec_extract_domain(h.url@)
            &&& r.rank == i
            &&& r.published_date == h.published_date
            &&& r.language == h.language
            &&& r.full_content == h.full_content
            &&& r.extra_snippets is None
        },
{
    let ghost input = hits@;
    let _n = hits.len();
    let mut rest = hits;
    let mut out: Vec<SearchResult> = Vec::new();
    let mut i: usize = 0;
    proof { assert(input.skip(0) =~= input); }
    while rest.len() > 0
        invariant
            i <= input.len(),
            input.len() <= usize::MAX,
            i + rest@.len() == input.len(),
            rest@ == input.skip(i as int),
            out@.len() == i,
            forall|k: int| 0 <= k < i ==> {
                let r = #[trigger] out@[k];
                let h = input[k];
                &&& r.url == h.url
                &&& r.title == h.title
                &&& r.snippet == h.snippet
                &&& r.domain@ == spec_extract_domain(h.url@)
                &&& r.rank == k
                &&& r.published_date == h.published_date
                &&& r.language == h.language
                &&& r.full_content == h.full_content
                &&& r.extra_snippets is None
            },
        decreases rest.len(),
    {
        let h = rest.remove(0);
        proof {
            assert(h == input[i as int]);
            assert(rest@ =~= input.skip(i + 1));
        }
        let domain = extract_domain(h.url.as_str());
        out.push(SearchResult {
            url: h.url,
            title: h.title,
            snippet: h.snippet,
            domain,
            rank: i,
            published_date: h.published_date,
            language: h.language,
            full_content: h.full_content,
            extra_snippets: None,
        });
        i = i + 1;
    }
    out
}

/// One entry of a DDG bridge answer; any field may be missing.
pub struct BridgeEntry {
    pub url: Option<String>,
    pub title: Option<String>,
    pub snippet: Option<String>,
}

/// An optional text, a missing one read as empty.
pub open spec fn text_or_empty(o: Option<String>) -> Seq<char> {
    match o {
        Some(t) => t@,
        None => Seq::empty(),
    }
}

/// The results of the first `k` bridge entries: each entry with a URL, in
/// order, ranked by its position among all entries, with its domain read
/// from the URL and a missing title or snippet read as empty.
pub open spec fn spec_bridge_results(es: Seq<BridgeEntry>, k: int) -> Seq<SearchResultView>
    decreases k,
{
    if k <= 0 {
        Seq::empty()
    } else {
        let before = spec_bridge_results(es, k - 1);
        let e = es[k - 1];
        match e.url {
            Some(u) => before.push(SearchResultView {
                url: u@,
                title: text_or_empty(e.title),
                snippet: text_or_empty(e.snippet),
                domain: spec_extract_domain(u@),
                rank: (k - 1) as usize,
                published_date: None,
                language: None,
                full_content: None,
                extra_snippets: None,
            }),
            None => before,
        }
    }
}

/// The results of a DDG bridge answer: entries without a URL are dropped,
/// the others keep their position as rank.
pub fn bridge_results(entries: Vec<BridgeEntry>) -> (res: Vec<SearchResult>)
    ensures
        results_view(res@) == spec_bridge_results(entries@, entries@.len() as int),
{
    let ghost input = entries@;
    let _n = entries.len();
    let mut rest = entries;
    let mut out: Vec<SearchResult> = Vec::new();
    let mut i: usize = 0;
    proof { assert(input.skip(0) =~= input); }
    while rest.len() > 0
        invariant
            i <= input.len(),
            input.len() <= usize::MAX,
            i + rest@.len() == input.len(),
            rest@ == input.skip(i as int),
            results_view(out@) == spec_bridge_results(input, i as int),
        decreases rest.len(),
    {
        let e = rest.remove(0);
        proof {
            assert(e == input[i as int]);
            assert(rest@ =~= input.skip(i + 1));
        }
        let ghost before = out@;
        match e.url {
            Some(url) => {
                let domain = extract_domain(url.as_str());
                let title = match e.title {
                    Some(t) => t,
                    None => String::new(),
                };
                let snippet = match e.snippet {
                    Some(t) => t,
                    None => String::new(),
                };
                out.push(SearchResult {
                    url,
                    title,
                    snippet,
                    domain,
                    rank: i,
                    published_date: None,
                    language: None,
                    full_content: None,
                    extra_snippets: None,
                });
                proof {
                    assert(results_view(out@) =~= results_view(before).push(out@.last()@));
                }
            },
            None => {},
        }
        i = i + 1;
    }
    out
}

/// The separator between joined excerpts of a result snippet.
pub open spec fn snippet_separator() -> Seq<char> {
    seq![' ', '…', ' ']
}

/// A snippet made of excerpts joined by " … ".
pub fn join_excerpts(excerpts: &Vec<String>) -> (res: String)
    ensures
        res@ == spec_join(views(excerpts@), snippet_separator()),
{
    let mut sep = String::new();
    crate::text::push_char(&mut sep, ' ');
    crate::text::push_char(&mut sep, '…');
    crate::text::push_char(&mut sep, ' ');
    assert(sep@ =~= snippet_separator());
    join(excerpts, sep.as_str())
}

/// The snippet of a hit: its description, or its excerpts joined by " … "
/// when the description is empty.
pub fn snippet_or_excerpts(description: String, excerpts: &Vec<String>) -> (res: String)
    ensures
        description@.len() > 0 ==> res@ == description@,
        description@.len() == 0 ==> res@ == spec_join(views(excerpts@), snippet_separator()),
{
    if description.unicode_len() == 0 {
        join_excerpts(excerpts)
    } else {
        description
    }
}

/// The (requested format, stamped label) for a body-format hint of a
/// provider that offers markdown and html only: "html" stays html, any
/// other hint becomes markdown.
pub fn resolve_format(hint: &str) -> (res: (&'static str, &'static str))
    ensures
        hint@ == "html"@ ==> res.0@ == "html"@ && res.1@ == "html"@,
        hint@ != "html"@ ==> res.0@ == "markdown"@ && res.1@ == "markdown"@,
{
    let html = "html";
    if str_eq(hint, html) {
        ("html", "html")
    } else {
        ("markdown", "markdown")
    }
}

/// The market for a language/country hint (compared lowercased): `en-us`
/// for English or a US/GB country, else `de-de` for German language or
/// country, else `fr-fr` for French language or country, else none (the
/// API default).
pub open spec fn spec_resolve_market(lang: Option<Seq<char>>, cty: Option<Seq<char>>) -> Option<Seq<char>> {
    let l = match lang { Some(x) => Some(lowercase(x)), None => None };
    let c = match cty { Some(x) => Some(lowercase(x)), None => None };
    if l == Some("en"@) || c == Some("us"@) || c == Some("gb"@) {
        Some("en-us"@)
    } else if l == Some("de"@) || c == Some("de"@) {
        Some("de-de"@)
    } else if l == Some("fr"@) || c == Some("fr"@) {
        Some("fr-fr"@)
    } else {
        None
    }
}

fn lower_is(v: &Option<String>, code: &str) -> (res: bool)
    ensures
        res == (match v { Some(s) => s@ == code@, None => false }),
{
    match v {
        Some(s) => str_eq(s.as_str(), code),
        None => false,
    }
}

/// Maps language/country hints onto one of the three supported markets.
pub fn resolve_market(language: Option<&str>, country: Option<&str>) -> (res: Option<&'static str>)
    ensures
        match res {
            Some(m) => spec_resolve_market(
                match language { Some(x) => Some(x@), None => None },
                match country { Some(x) => Some(x@), None => None },
            ) == Some(m@),
            None => spec_resolve_market(
                match language { Some(x) => Some(x@), None => None },
                match country { Some(x) => Some(x@), None => None },
            ) is None,
        },
{
    let l = match language { Some(x) => Some(to_lowercase(x)), None => None };
    let c = match country { Some(x) => Some(to_lowercase(x)), None => None };
    if lower_is(&l, "en") || lower_is(&c, "us") || lower_is(&c, "gb") {
        Some("en-us")
    } else if lower_is(&l, "de") || lower_is(&c, "de") {
        Some("de-de")
    } else if lower_is(&l, "fr") || lower_is(&c, "fr") {
        Some("fr-fr")
    } else {
        None
    }
}


/// One page extracted by a content provider.
#[derive(Debug)]
pub struct ContentDoc {
    pub url: String,
    pub title: Option<String>,
    pub published_date: Option<String>,
    pub content: FullContent,
}

/// The pages a content provider extracted, and the requested URLs it could
/// not, each with a reason.
#[derive(Debug)]
pub struct ContentOutput {
    pub docs: Vec<ContentDoc>,
    pub failed: Vec<(String, String)>,
}

/// The reason given for a requested URL that came back without content.
pub open spec fn no_content_reason() -> Seq<char> {
    "no content returned"@
}

/// Whether some doc has this URL.
pub open spec fn has_doc_url(docs: Seq<ContentDoc>, url: Seq<char>) -> bool {
    exists|i: int| 0 <= i < docs.len() && #[trigger] docs[i].url@ == url
}

/// The failures among the first `k` requested URLs: those no doc answers.
pub open spec fn missing_upto(docs: Seq<ContentDoc>, requested: Seq<String>, k: int) -> Seq<(Seq<char>, Seq<char>)>
    decreases k,
{
    if k <= 0 {
        Seq::empty()
    } else {
        let before = missing_upto(docs, requested, k - 1);
        if has_doc_url(docs, requested[k - 1]@) {
            before
        } else {
            before.push((requested[k - 1]@, no_content_reason()))
        }
    }
}

pub open spec fn pair_views(v: Seq<(String, String)>) -> Seq<(Seq<char>, Seq<char>)> {
    v.map_values(|p: (String, String)| (p.0@, p.1@))
}

fn has_url(docs: &Vec<ContentDoc>, url: &str) -> (res: bool)
    ensures
        res == has_doc_url(docs@, url@),
{
    let mut i: usize = 0;
    while i < docs.len()
        invariant
            i <= docs@.len(),
            forall|j: int| 0 <= j < i ==> docs@[j].url@ != url@,
        decreases docs.len() - i,
    {
        if str_eq(docs[i].url.as_str(), url) {
            return true;
        }
        i = i + 1;
    }
    false
}

/// Pairs the extracted pages with the requested URLs that none of them
/// answers, in request order, each marked "no content returned".
pub fn content_output(docs: Vec<ContentDoc>, requested: &Vec<String>) -> (res: ContentOutput)
    ensures
        res.docs@ == docs@,
        pair_views(res.failed@) == missing_upto(docs@, requested@, requested@.len() as int),
{
    let mut failed: Vec<(String, String)> = Vec::new();
    let mut i: usize = 0;
    while i < requested.len()
        invariant
            i <= requested@.len(),
            pair_views(failed@) == missing_upto(docs@, requested@, i as int),
        decreases requested.len() - i,
    {
        let u = requested[i].as_str();
        let ghost before = failed@;
        if !has_url(&docs, u) {
            let reason = "no content returned";
            failed.push((requested[i].clone(), crate::text::to_owned_string(reason)));
            proof {
                assert(pair_views(failed@) =~= pair_views(before).push((requested@[i as int]@, no_content_reason())));
            }
        }
        proof {
            assert(pair_views(failed@) =~= missing_upto(docs@, requested@, i + 1));
        }
        i = i + 1;
    }
    ContentOutput { docs, failed }
}

/// A page body: the non-empty text, stamped with its format label and its
/// length in bytes.
pub fn make_content(text: String, label: &str) -> (res: FullContent)
    ensures
        res.text == text,
        res.format@ == label@,
        res.length == crate::text::utf8_len(text@) as usize,
{
    let length = text.as_str().len();
    FullContent { text, format: crate::text::to_owned_string(label), length }
}

/// The body in the labelled format (html for "html", markdown otherwise),
/// when present and non-empty.
pub fn pick_body(label: &str, markdown: Option<String>, html: Option<String>) -> (res: Option<String>)
    ensures
        ({
            let chosen = if label@ == "html"@ { html } else { markdown };
            match chosen {
                Some(t) => if t@.len() > 0 { res == Some(t) } else { res is None },
                None => res is None,
            }
        }),
{
    let chosen = if str_eq(label, "html") { html } else { markdown };
    match chosen {
        Some(t) => if t.unicode_len() > 0 { Some(t) } else { None },
        None => None,
    }
}

/// The separator between excerpts of an extracted page.
pub open spec fn paragraph_separator() -> Seq<char> {
    seq!['\n', '\n']
}

/// The body of an extracted page: the full content when present and
/// non-empty, else the excerpts joined by blank lines.
pub fn body_or_excerpts(full_content: Option<String>, excerpts: &Vec<String>) -> (res: String)
    ensures
        (full_content matches Some(t) && t@.len() > 0) ==> res == full_content->0,
        !(full_content matches Some(t) && t@.len() > 0) ==> res@ == spec_join(views(excerpts@), paragraph_separator()),
{
    match full_content {
        Some(t) => {
            if t.unicode_len() > 0 {
                return t;
            }
        },
        None => {},
    }
    let mut sep = String::new();
    crate::text::push_char(&mut sep, '\n');
    crate::text::push_char(&mut sep, '\n');
    assert(sep@ =~= paragraph_separator());
    join(excerpts, sep.as_str())
}

// ---------------------------------------------------------------------------
// Request options of particular providers
// ---------------------------------------------------------------------------

/// The raw-content format asked of a provider that offers markdown and text
/// only: "text" stays text, any other hint becomes markdown, and no hint
/// asks for no raw content.
pub fn raw_content_format(hint: Option<&str>) -> (res: Option<&'static str>)
    ensures
        match hint {
            Some(h) => res matches Some(f) && (if h@ == "text"@ { f@ == "text"@ } else { f@ == "markdown"@ }),
            None => res is None,
        },
{
    match hint {
        Some(h) => if str_eq(h, "text") {
            Some("text")
        } else {
            Some("markdown")
        },
        None => None,
    }
}

/// The search depth to pay for: "advanced" only when page content is asked
/// for, "basic" otherwise.
pub fn search_depth(wants_content: bool) -> (res: &'static str)
    ensures
        res@ == (if wants_content { "advanced"@ } else { "basic"@ }),
{
    if wants_content {
        "advanced"
    } else {
        "basic"
    }
}

/// The slug of a bridge adapter: "ddg" in fan-out mode, else its backend.
pub fn bridge_slug(backend: Option<&str>) -> (res: String)
    ensures
        res@ == (match backend {
            Some(b) => b@,
            None => "ddg"@,
        }),
{
    match backend {
        Some(b) => crate::text::to_owned_string(b),
        None => crate::text::to_owned_string("ddg"),
    }
}

/// The slug to report for a bridge answer: in fan-out mode, "ddg-" and the
/// backend the bridge says it used; otherwise none.
pub fn fanout_slug(fanout: bool, backend_used: Option<String>) -> (res: Option<String>)
    ensures
        match (fanout, backend_used) {
            (true, Some(b)) => res matches Some(s) && s@ == "ddg-"@ + b@,
            _ => res is None,
        },
{
    if !fanout {
        return None;
    }
    match backend_used {
        Some(b) => Some(crate::text::concat2("ddg-", b.as_str())),
        None => None,
    }
}

/// A base URL without its trailing '/' characters.
pub fn trim_base_url(url: &str) -> (res: String)
    ensures
        res@ == crate::cache::trim_slashes(url@),
{
    let n = url.unicode_len();
    let mut j: usize = n;
    while j > 0 && url.get_char(j - 1) == '/'
        invariant
            n == url@.len(),
            j <= n,
            forall|k: int| j <= k < n ==> url@[k] == '/',
        decreases j,
    {
        j = j - 1;
    }
    proof {
        crate::cache::lemma_trim_slashes(url@, j as int);
        assert(url@.take(j as int) =~= url@.subrange(0, j as int));
    }
    crate::text::to_owned_string(url.substring_char(0, j))
}

/// `n` clamped to `lo..=hi`.
pub fn clamp_count(n: usize, lo: usize, hi: usize) -> (res: usize)
    requires
        lo <= hi,
    ensures
        res == (if n < lo { lo } else if n > hi { hi } else { n }),
{
    if n < lo {
        lo
    } else if n > hi {
        hi
    } else {
        n
    }
}

/// A text kept only when it is not empty.
pub fn non_empty(text: Option<String>) -> (res: Option<String>)
    ensures
        match text {
            Some(t) => if t@.len() > 0 { res == Some(t) } else { res is None },
            None => res is None,
        },
{
    match text {
        Some(t) => if t.unicode_len() > 0 {
            Some(t)
        } else {
            None
        },
        None => None,
    }
}

} // verus!
