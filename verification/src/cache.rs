//! Two in-memory caches: search results keyed by a digest of the request,
//! and page content keyed by normalized URL. Entries carry the time they
//! were stored and a time to live, both in milliseconds, and expire once
//! that much time has passed.

use vstd::prelude::*;
use dashmap::DashMap;
use sha2::{Digest, Sha256};
use crate::models::{
    copy_opt_content, copy_opt_snippets, copy_results, opt_content_view, opt_snippets_view,
    results_view, ExtraSnippet, FullContent, FullContentView, SearchResult, SearchResultView,
};
use crate::tables::{
    doc_entries, docs_get, docs_insert, docs_is_empty, docs_len, docs_new, docs_remove,
    docs_retain_fresh, queries_get, queries_insert, queries_is_empty, queries_len, queries_new,
    queries_remove, queries_retain_fresh, query_entries,
};
use crate::text::to_owned_string;

verus! {

/// Whether an entry stored at `stored_at_ms` with `ttl_ms` to live has
/// expired at `now`: the time elapsed since it was stored (none when the
/// clock reads earlier) has reached its time to live.
pub open spec fn spec_expired(stored_at_ms: u64, ttl_ms: u64, now: u64) -> bool {
    (if now >= stored_at_ms { now - stored_at_ms } else { 0 }) >= ttl_ms
}

// ---------------------------------------------------------------------------
// Query cache
// ---------------------------------------------------------------------------

/// The results of one search, as cached.
#[derive(Debug)]
pub struct CacheEntry {
    pub results: Vec<SearchResult>,
    pub provider_slug: String,
    pub api_key_id: String,
    pub stored_at_ms: u64,
    pub ttl_ms: u64,
}

pub struct CacheEntryView {
    pub results: Seq<SearchResultView>,
    pub provider_slug: Seq<char>,
    pub api_key_id: Seq<char>,
    pub stored_at_ms: u64,
    pub ttl_ms: u64,
}

impl View for CacheEntry {
    type V = CacheEntryView;

    open spec fn view(&self) -> CacheEntryView {
        CacheEntryView {
            results: results_view(self.results@),
            provider_slug: self.provider_slug@,
            api_key_id: self.api_key_id@,
            stored_at_ms: self.stored_at_ms,
            ttl_ms: self.ttl_ms,
        }
    }
}

/// The entries of a query cache that are still fresh at `now`.
pub open spec fn fresh_entries(m: Map<Seq<char>, CacheEntryView>, now: u64) -> Map<Seq<char>, CacheEntryView> {
    m.restrict(Set::new(|k: Seq<char>| m.contains_key(k) && !spec_expired(m[k].stored_at_ms, m[k].ttl_ms, now)))
}

impl CacheEntry {
    /// Whether the entry has expired at `now`.
    pub fn is_expired(&self, now: u64) -> (res: bool)
        ensures
            res == spec_expired(self.stored_at_ms, self.ttl_ms, now),
    {
        let elapsed: u64 = if now >= self.stored_at_ms { now - self.stored_at_ms } else { 0 };
        elapsed >= self.ttl_ms
    }

    /// Whether the entry is still fresh at `now`.
    pub fn is_fresh(&self, now: u64) -> (res: bool)
        ensures
            res == !spec_expired(self.stored_at_ms, self.ttl_ms, now),
    {
        !self.is_expired(now)
    }

    /// A field-by-field copy.
    pub fn copy(&self) -> (res: CacheEntry)
        ensures
            res@ == self@,
    {
        CacheEntry {
            results: copy_results(&self.results),
            provider_slug: self.provider_slug.clone(),
            api_key_id: self.api_key_id.clone(),
            stored_at_ms: self.stored_at_ms,
            ttl_ms: self.ttl_ms,
        }
    }
}

/// Search results cached under a key derived from the request.
pub struct QueryCache {
    inner: DashMap<String, CacheEntry>,
}

impl View for QueryCache {
    type V = Map<Seq<char>, CacheEntryView>;

    closed spec fn view(&self) -> Map<Seq<char>, CacheEntryView> {
        query_entries(self.inner)
    }
}

/// Name for the SHA-256 digest of a byte string.
pub uninterp spec fn sha256(data: Seq<u8>) -> Seq<u8>;

/// Trusted: `sha2::Sha256` hashes `data` into its 32-byte digest, which
/// depends on the bytes alone.
#[verifier::external_body]
fn sha256_digest(data: &[u8]) -> (res: Vec<u8>)
    ensures
        res@ == sha256(data@),
        res@.len() == 32,
{
    let mut hasher = Sha256::new();
    hasher.update(data);
    hasher.finalize().to_vec()
}

/// The lower-case hex digit of a number below 16.
pub open spec fn hex_digit(n: u8) -> char {
    if n < 10 {
        (48 + n) as char
    } else {
        (87 + n) as char
    }
}

/// Each byte as two lower-case hex digits, high nibble first.
pub open spec fn spec_hex(bytes: Seq<u8>) -> Seq<char>
    decreases bytes.len(),
{
    if bytes.len() == 0 {
        Seq::empty()
    } else {
        spec_hex(bytes.drop_last()) + seq![hex_digit(bytes.last() / 16), hex_digit(bytes.last() % 16)]
    }
}

/// Whether `c` is a lower-case hex digit.
pub open spec fn is_hex_char(c: char) -> bool {
    ('0' <= c && c <= '9') || ('a' <= c && c <= 'f')
}

/// Hex text is two digits per byte, each a lower-case hex digit.
pub proof fn lemma_spec_hex(bytes: Seq<u8>)
    ensures
        spec_hex(bytes).len() == 2 * bytes.len(),
        forall|i: int| 0 <= i < spec_hex(bytes).len() ==> is_hex_char(#[trigger] spec_hex(bytes)[i]),
    decreases bytes.len(),
{
    if bytes.len() > 0 {
        lemma_spec_hex(bytes.drop_last());
        let b = bytes.last();
        let hi = hex_digit(b / 16);
        let lo = hex_digit(b % 16);
        assert(is_hex_char(hi));
        assert(is_hex_char(lo));
        let prev = spec_hex(bytes.drop_last());
        let cur = spec_hex(bytes);
        assert(cur == prev + seq![hi, lo]);
        assert forall|i: int| 0 <= i < cur.len() implies is_hex_char(#[trigger] cur[i]) by {
            if i < prev.len() {
                assert(cur[i] == prev[i]);
            }
        }
    }
}

/// Trusted: `hex::encode` writes each byte as two lower-case hex digits,
/// high nibble first.
#[verifier::external_body]
fn hex_encode(bytes: &Vec<u8>) -> (res: String)
    ensures
        res@ == spec_hex(bytes@),
{
    hex::encode(bytes)
}

/// The UTF-8 bytes of a string.
pub open spec fn bytes_of(s: Seq<char>) -> Seq<u8> {
    vstd::utf8::encode_utf8(s)
}

/// The view of an optional string, an absent one read as empty.
pub open spec fn or_empty(o: Option<&str>) -> Seq<char> {
    match o {
        Some(s) => s@,
        None => Seq::empty(),
    }
}

/// What the cache key digests: the query, language, country, group and
/// enrichment discriminator, as UTF-8, each pair separated by a zero byte.
pub open spec fn key_material(
    query: Seq<char>,
    language: Seq<char>,
    country: Seq<char>,
    group_slug: Seq<char>,
    enrichment: Seq<char>,
) -> Seq<u8> {
    bytes_of(query) + seq![0u8] + bytes_of(language) + seq![0u8] + bytes_of(country) + seq![0u8]
        + bytes_of(group_slug) + seq![0u8] + bytes_of(enrichment)
}

/// Appends the UTF-8 bytes of `s` to `out`.
fn push_bytes(out: &mut Vec<u8>, s: &str)
    ensures
        final(out)@ == old(out)@ + bytes_of(s@),
{
    let b = s.as_bytes();
    let mut i: usize = 0;
    while i < b.len()
        invariant
            i <= b@.len(),
            b@ == bytes_of(s@),
            out@ == old(out)@ + b@.take(i as int),
        decreases b.len() - i,
    {
        out.push(b[i]);
        proof {
            assert(b@.take(i + 1) =~= b@.take(i as int).push(b@[i as int]));
        }
        i = i + 1;
    }
    proof {
        assert(b@.take(b@.len() as int) =~= b@);
    }
}

/// Reads an absent string as empty.
fn str_or_empty<'a>(o: Option<&'a str>) -> (res: &'a str)
    ensures
        res@ == or_empty(o),
{
    match o {
        Some(s) => s,
        None => {
            proof { reveal_strlit(""); }
            ""
        },
    }
}

impl QueryCache {
    /// An empty cache.
    pub fn new() -> (res: QueryCache)
        ensures
            res@ == Map::<Seq<char>, CacheEntryView>::empty(),
    {
        QueryCache { inner: queries_new() }
    }

    /// The cache key of a request: the lower-case hex SHA-256 digest of its
    /// query, language, country, group and enrichment discriminator. The
    /// discriminator folds enrichment options into the key, so a plain
    /// search is never answered from an enriched entry or the other way
    /// round; pass "" when enrichment is not in play.
    pub fn cache_key(
        query: &str,
        language: Option<&str>,
        country: Option<&str>,
        group_slug: Option<&str>,
        enrichment: &str,
    ) -> (res: String)
        ensures
            res@ == spec_hex(sha256(key_material(
                query@,
                or_empty(language),
                or_empty(country),
                or_empty(group_slug),
                enrichment@,
            ))),
            res@.len() == 64,
            forall|i: int| 0 <= i < res@.len() ==> is_hex_char(#[trigger] res@[i]),
    {
        let mut data: Vec<u8> = Vec::new();
        push_bytes(&mut data, query);
        data.push(0u8);
        push_bytes(&mut data, str_or_empty(language));
        data.push(0u8);
        push_bytes(&mut data, str_or_empty(country));
        data.push(0u8);
        push_bytes(&mut data, str_or_empty(group_slug));
        data.push(0u8);
        push_bytes(&mut data, enrichment);
        proof {
            assert(data@ =~= key_material(
                query@,
                or_empty(language),
                or_empty(country),
                or_empty(group_slug),
                enrichment@,
            ));
        }
        let digest = sha256_digest(data.as_slice());
        proof { lemma_spec_hex(digest@); }
        hex_encode(&digest)
    }

    /// The entry under `key` while it is fresh at `now`. An expired entry is
    /// removed and not returned.
    pub fn get(&mut self, key: &str, now: u64) -> (res: Option<CacheEntry>)
        ensures
            match old(self)@.get(key@) {
                None => res is None && final(self)@ == old(self)@,
                Some(e) => if spec_expired(e.stored_at_ms, e.ttl_ms, now) {
                    res is None && final(self)@ == old(self)@.remove(key@)
                } else {
                    res matches Some(r) && r@ == e && final(self)@ == old(self)@
                },
            },
    {
        match queries_get(&self.inner, key) {
            None => None,
            Some(entry) => {
                if entry.is_expired(now) {
                    queries_remove(&mut self.inner, key);
                    None
                } else {
                    Some(entry)
                }
            },
        }
    }

    /// Stores `entry` under `key`, replacing what was there.
    pub fn set(&mut self, key: String, entry: CacheEntry)
        ensures
            final(self)@ == old(self)@.insert(key@, entry@),
    {
        queries_insert(&mut self.inner, key, entry);
    }

    /// Removes every entry expired at `now`.
    pub fn evict_expired(&mut self, now: u64)
        ensures
            final(self)@ == fresh_entries(old(self)@, now),
    {
        queries_retain_fresh(&mut self.inner, now);
    }

    /// The number of entries, expired or not.
    pub fn len(&self) -> (res: usize)
        ensures
            res == self@.len(),
    {
        queries_len(&self.inner)
    }

    /// Whether there is no entry.
    pub fn is_empty(&self) -> (res: bool)
        ensures
            res == (self@.len() == 0),
    {
        queries_is_empty(&self.inner)
    }
}

// ---------------------------------------------------------------------------
// Document cache
// ---------------------------------------------------------------------------

/// Enrichment content of one page, as cached.
#[derive(Debug)]
pub struct DocEntry {
    pub full_content: Option<FullContent>,
    pub extra_snippets: Option<Vec<ExtraSnippet>>,
    pub stored_at_ms: u64,
    pub ttl_ms: u64,
}

pub struct DocEntryView {
    pub full_content: Option<FullContentView>,
    pub extra_snippets: Option<Seq<Seq<char>>>,
    pub stored_at_ms: u64,
    pub ttl_ms: u64,
}

impl View for DocEntry {
    type V = DocEntryView;

    open spec fn view(&self) -> DocEntryView {
        DocEntryView {
            full_content: opt_content_view(self.full_content),
            extra_snippets: opt_snippets_view(self.extra_snippets),
            stored_at_ms: self.stored_at_ms,
            ttl_ms: self.ttl_ms,
        }
    }
}

/// The entries of a document cache that are still fresh at `now`.
pub open spec fn fresh_docs(m: Map<Seq<char>, DocEntryView>, now: u64) -> Map<Seq<char>, DocEntryView> {
    m.restrict(Set::new(|k: Seq<char>| m.contains_key(k) && !spec_expired(m[k].stored_at_ms, m[k].ttl_ms, now)))
}

impl DocEntry {
    /// Whether the entry has expired at `now`.
    pub fn is_expired(&self, now: u64) -> (res: bool)
        ensures
            res == spec_expired(self.stored_at_ms, self.ttl_ms, now),
    {
        let elapsed: u64 = if now >= self.stored_at_ms { now - self.stored_at_ms } else { 0 };
        elapsed >= self.ttl_ms
    }

    /// Whether the entry is still fresh at `now`.
    pub fn is_fresh(&self, now: u64) -> (res: bool)
        ensures
            res == !spec_expired(self.stored_at_ms, self.ttl_ms, now),
    {
        !self.is_expired(now)
    }

    /// A field-by-field copy.
    pub fn copy(&self) -> (res: DocEntry)
        ensures
            res@ == self@,
    {
        DocEntry {
            full_content: copy_opt_content(&self.full_content),
            extra_snippets: copy_opt_snippets(&self.extra_snippets),
            stored_at_ms: self.stored_at_ms,
            ttl_ms: self.ttl_ms,
        }
    }
}

/// The part of a URL before its first '#'.
pub open spec fn before_fragment(s: Seq<char>) -> Seq<char>
    decreases s.len(),
{
    if s.len() == 0 {
        s
    } else if s[0] == '#' {
        Seq::empty()
    } else {
        seq![s[0]] + before_fragment(s.drop_first())
    }
}

/// The string without its trailing '/' characters.
pub open spec fn trim_slashes(s: Seq<char>) -> Seq<char>
    decreases s.len(),
{
    if s.len() > 0 && s.last() == '/' {
        trim_slashes(s.drop_last())
    } else {
        s
    }
}

/// A URL as a cache key: without its fragment, then without trailing
/// slashes, so trivially different URLs of one page share one entry.
pub open spec fn spec_normalize(url: Seq<char>) -> Seq<char> {
    trim_slashes(before_fragment(url))
}

/// The position of the first '#' in `s`, or its length.
proof fn lemma_before_fragment(s: Seq<char>, i: int)
    requires
        0 <= i <= s.len(),
        forall|j: int| 0 <= j < i ==> s[j] != '#',
        i == s.len() || s[i] == '#',
    ensures
        before_fragment(s) == s.take(i),
    decreases s.len(),
{
    if s.len() > 0 {
        if s[0] == '#' {
            assert(i == 0);
            assert(s.take(0) =~= Seq::<char>::empty());
        } else {
            assert(i > 0);
            lemma_before_fragment(s.drop_first(), i - 1);
            assert(s.take(i) =~= seq![s[0]] + s.drop_first().take(i - 1));
        }
    }
}

pub(crate) proof fn lemma_trim_slashes(s: Seq<char>, j: int)
    requires
        0 <= j <= s.len(),
        forall|k: int| j <= k < s.len() ==> s[k] == '/',
        j == 0 || s[j - 1] != '/',
    ensures
        trim_slashes(s) == s.take(j),
    decreases s.len(),
{
    if s.len() > 0 && s.last() == '/' {
        assert(j < s.len());
        lemma_trim_slashes(s.drop_last(), j);
        assert(s.drop_last().take(j) =~= s.take(j));
    } else {
        if j < s.len() {
            assert(s[s.len() - 1] == '/');
        }
        assert(s.take(j) =~= s);
    }
}

/// Normalizes a URL for use as a document cache key.
pub fn normalize(url: &str) -> (res: String)
    ensures
        res@ == spec_normalize(url@),
{
    let n = url.unicode_len();
    let mut i: usize = 0;
    while i < n
        invariant
            n == url@.len(),
            i <= n,
            forall|j: int| 0 <= j < i ==> url@[j] != '#',
        ensures
            n == url@.len(),
            i <= n,
            forall|j: int| 0 <= j < i ==> url@[j] != '#',
            i == n || url@[i as int] == '#',
        decreases n - i,
    {
        if url.get_char(i) == '#' {
            break;
        }
        i = i + 1;
    }
    proof { lemma_before_fragment(url@, i as int); }
    let mut j: usize = i;
    while j > 0 && url.get_char(j - 1) == '/'
        invariant
            i <= n,
            n == url@.len(),
            j <= i,
            forall|k: int| j <= k < i ==> url@[k] == '/',
        decreases j,
    {
        j = j - 1;
    }
    proof {
        let head = url@.take(i as int);
        assert(forall|k: int| j <= k < head.len() ==> head[k] == url@[k]);
        lemma_trim_slashes(head, j as int);
        assert(head.take(j as int) =~= url@.subrange(0, j as int));
    }
    to_owned_string(url.substring_char(0, j))
}

/// Page content cached under its normalized URL. Independent of the query
/// cache: a page fetched once serves any later query that surfaces the same
/// URL, and may outlive the results it came with.
pub struct DocCache {
    inner: DashMap<String, DocEntry>,
}

impl View for DocCache {
    type V = Map<Seq<char>, DocEntryView>;

    closed spec fn view(&self) -> Map<Seq<char>, DocEntryView> {
        doc_entries(self.inner)
    }
}

impl DocCache {
    /// An empty cache.
    pub fn new() -> (res: DocCache)
        ensures
            res@ == Map::<Seq<char>, DocEntryView>::empty(),
    {
        DocCache { inner: docs_new() }
    }

    /// The content cached for `url` (normalized) while it is fresh at `now`.
    /// An expired entry is removed and not returned.
    pub fn get(&mut self, url: &str, now: u64) -> (res: Option<DocEntry>)
        ensures
            match old(self)@.get(spec_normalize(url@)) {
                None => res is None && final(self)@ == old(self)@,
                Some(e) => if spec_expired(e.stored_at_ms, e.ttl_ms, now) {
                    res is None && final(self)@ == old(self)@.remove(spec_normalize(url@))
                } else {
                    res matches Some(r) && r@ == e && final(self)@ == old(self)@
                },
            },
    {
        let key = normalize(url);
        match docs_get(&self.inner, key.as_str()) {
            None => None,
            Some(entry) => {
                if entry.is_expired(now) {
                    docs_remove(&mut self.inner, key.as_str());
                    None
                } else {
                    Some(entry)
                }
            },
        }
    }

    /// Stores enrichment content for `url` (normalized), stored at `now`
    /// with `ttl_ms` to live. Nothing is stored when both parts are absent.
    pub fn set(
        &mut self,
        url: &str,
        full_content: Option<FullContent>,
        extra_snippets: Option<Vec<ExtraSnippet>>,
        ttl_ms: u64,
        now: u64,
    )
        ensures
            if full_content is None && extra_snippets is None {
                final(self)@ == old(self)@
            } else {
                final(self)@ == old(self)@.insert(
                    spec_normalize(url@),
                    DocEntryView {
                        full_content: opt_content_view(full_content),
                        extra_snippets: opt_snippets_view(extra_snippets),
                        stored_at_ms: now,
                        ttl_ms,
                    },
                )
            },
    {
        if full_content.is_none() && extra_snippets.is_none() {
            return;
        }
        let key = normalize(url);
        docs_insert(&mut self.inner, key, DocEntry { full_content, extra_snippets, stored_at_ms: now, ttl_ms });
    }

    /// Removes every entry expired at `now`.
    pub fn evict_expired(&mut self, now: u64)
        ensures
            final(self)@ == fresh_docs(old(self)@, now),
    {
        docs_retain_fresh(&mut self.inner, now);
    }

    /// The number of entries, expired or not.
    pub fn len(&self) -> (res: usize)
        ensures
            res == self@.len(),
    {
        docs_len(&self.inner)
    }

    /// Whether there is no entry.
    pub fn is_empty(&self) -> (res: bool)
        ensures
            res == (self@.len() == 0),
    {
        docs_is_empty(&self.inner)
    }
}

// ---------------------------------------------------------------------------
// Laws
// ---------------------------------------------------------------------------

/// A cached entry is served back while it is fresh: after `set(key, e)`, a
/// `get(key)` at a time before `e` expires returns `e` and keeps it.
pub proof fn law_fresh_entry_served(m: Map<Seq<char>, CacheEntryView>, key: Seq<char>, e: CacheEntryView, now: u64)
    requires
        !spec_expired(e.stored_at_ms, e.ttl_ms, now),
    ensures
        m.insert(key, e).get(key) == Some(e),
        !spec_expired(m.insert(key, e)[key].stored_at_ms, m.insert(key, e)[key].ttl_ms, now),
{
}

/// An expired entry is never served: a `get` at a time when the entry under
/// the key has expired answers nothing and leaves the key empty.
pub proof fn law_expired_entry_dropped(m: Map<Seq<char>, CacheEntryView>, key: Seq<char>, now: u64)
    requires
        m.contains_key(key),
        spec_expired(m[key].stored_at_ms, m[key].ttl_ms, now),
    ensures
        !m.remove(key).contains_key(key),
{
}

/// Eviction keeps exactly the entries still fresh, unchanged.
pub proof fn law_evict_keeps_fresh(m: Map<Seq<char>, CacheEntryView>, now: u64)
    ensures
        forall|k: Seq<char>| #[trigger] fresh_entries(m, now).contains_key(k) <==>
            (m.contains_key(k) && !spec_expired(m[k].stored_at_ms, m[k].ttl_ms, now)),
        forall|k: Seq<char>| #[trigger] fresh_entries(m, now).contains_key(k) ==> fresh_entries(m, now)[k] == m[k],
{
}

proof fn lemma_no_fragment(s: Seq<char>)
    requires
        forall|j: int| 0 <= j < s.len() ==> s[j] != '#',
    ensures
        before_fragment(s) == s,
{
    lemma_before_fragment(s, s.len() as int);
    assert(s.take(s.len() as int) =~= s);
}

proof fn lemma_before_fragment_clean(s: Seq<char>)
    ensures
        forall|j: int| 0 <= j < before_fragment(s).len() ==> before_fragment(s)[j] != '#',
    decreases s.len(),
{
    if s.len() > 0 && s[0] != '#' {
        lemma_before_fragment_clean(s.drop_first());
        let t = before_fragment(s.drop_first());
        assert forall|j: int| 0 <= j < before_fragment(s).len() implies before_fragment(s)[j] != '#' by {
            if j > 0 {
                assert(before_fragment(s)[j] == t[j - 1]);
            }
        }
    }
}

proof fn lemma_trim_prefix(s: Seq<char>)
    ensures
        trim_slashes(s).len() <= s.len(),
        trim_slashes(s) == s.take(trim_slashes(s).len() as int),
        trim_slashes(s).len() == 0 || trim_slashes(s).last() != '/',
    decreases s.len(),
{
    if s.len() > 0 && s.last() == '/' {
        lemma_trim_prefix(s.drop_last());
        assert(s.drop_last().take(trim_slashes(s).len() as int) =~= s.take(trim_slashes(s).len() as int));
    } else {
        assert(s.take(s.len() as int) =~= s);
    }
}

/// Normalizing a URL twice gives the same key as normalizing it once.
pub proof fn law_normalize_idempotent(url: Seq<char>)
    ensures
        spec_normalize(spec_normalize(url)) == spec_normalize(url),
{
    let b = before_fragment(url);
    let t = trim_slashes(b);
    lemma_before_fragment_clean(url);
    lemma_trim_prefix(b);
    assert forall|j: int| 0 <= j < t.len() implies t[j] != '#' by {
        assert(t[j] == b[j]);
    }
    lemma_no_fragment(t);
    lemma_trim_prefix(t);
}

/// A fragment never changes the key: for a URL without '#', appending
/// `#` and any fragment gives the same key.
pub proof fn law_fragment_ignored(url: Seq<char>, fragment: Seq<char>)
    requires
        forall|j: int| 0 <= j < url.len() ==> url[j] != '#',
    ensures
        spec_normalize(url + seq!['#'] + fragment) == spec_normalize(url),
{
    let t = url + seq!['#'] + fragment;
    assert forall|j: int| 0 <= j < url.len() implies t[j] != '#' by {
        assert(t[j] == url[j]);
    }
    lemma_before_fragment(t, url.len() as int);
    assert(t.take(url.len() as int) =~= url);
    lemma_no_fragment(url);
}

/// Trailing slashes never change the key: for a URL without '#', one more
/// trailing '/' gives the same key.
pub proof fn law_trailing_slash_ignored(url: Seq<char>)
    requires
        forall|j: int| 0 <= j < url.len() ==> url[j] != '#',
    ensures
        spec_normalize(url.push('/')) == spec_normalize(url),
{
    let t = url.push('/');
    assert forall|j: int| 0 <= j < t.len() implies t[j] != '#' by {
        if j < url.len() {
            assert(t[j] == url[j]);
        }
    }
    lemma_no_fragment(t);
    lemma_no_fragment(url);
    assert(t.drop_last() =~= url);
}

/// Requests that differ only in their enrichment discriminator digest
/// different key material, so a plain search and an enriched one are
/// cached apart (barring a SHA-256 collision).
pub proof fn law_enrichment_separates_keys(
    query: Seq<char>,
    language: Seq<char>,
    country: Seq<char>,
    group_slug: Seq<char>,
    enrichment_a: Seq<char>,
    enrichment_b: Seq<char>,
)
    requires
        enrichment_a != enrichment_b,
    ensures
        key_material(query, language, country, group_slug, enrichment_a)
            != key_material(query, language, country, group_slug, enrichment_b),
{
    let prefix = bytes_of(query) + seq![0u8] + bytes_of(language) + seq![0u8] + bytes_of(country) + seq![0u8]
        + bytes_of(group_slug) + seq![0u8];
    let ma = key_material(query, language, country, group_slug, enrichment_a);
    let mb = key_material(query, language, country, group_slug, enrichment_b);
    assert(ma == prefix + bytes_of(enrichment_a));
    assert(mb == prefix + bytes_of(enrichment_b));
    if ma == mb {
        assert(ma.skip(prefix.len() as int) =~= bytes_of(enrichment_a));
        assert(mb.skip(prefix.len() as int) =~= bytes_of(enrichment_b));
        vstd::utf8::encode_utf8_decode_utf8(enrichment_a);
        vstd::utf8::encode_utf8_decode_utf8(enrichment_b);
        assert(false);
    }
}

proof fn lemma_bytes_of_injective(a: Seq<char>, b: Seq<char>)
    requires
        bytes_of(a) == bytes_of(b),
    ensures
        a == b,
{
    vstd::utf8::encode_utf8_decode_utf8(a);
    vstd::utf8::encode_utf8_decode_utf8(b);
}

proof fn lemma_same_frame(pre: Seq<u8>, x: Seq<u8>, y: Seq<u8>, post: Seq<u8>)
    requires
        pre + x + post == pre + y + post,
    ensures
        x == y,
{
    let mx = pre + x + post;
    let my = pre + y + post;
    assert(mx.len() == pre.len() + x.len() + post.len());
    assert(my.len() == pre.len() + y.len() + post.len());
    assert(mx.len() == my.len());
    assert(x =~= mx.subrange(pre.len() as int, (pre.len() + x.len()) as int));
    assert(y =~= my.subrange(pre.len() as int, (pre.len() + y.len()) as int));
}

/// Two strings framed alike digest alike only when they are equal.
proof fn lemma_framed_text(pre: Seq<u8>, a: Seq<char>, b: Seq<char>, post: Seq<u8>)
    requires
        a != b,
    ensures
        pre + bytes_of(a) + post != pre + bytes_of(b) + post,
{
    if pre + bytes_of(a) + post == pre + bytes_of(b) + post {
        lemma_same_frame(pre, bytes_of(a), bytes_of(b), post);
        lemma_bytes_of_injective(a, b);
    }
}

proof fn lemma_separates_by_query(
    query: Seq<char>,
    language: Seq<char>,
    country: Seq<char>,
    group_slug: Seq<char>,
    enrichment: Seq<char>,
    other: Seq<char>,
)
    requires
        other != query,
    ensures
        key_material(other, language, country, group_slug, enrichment) != key_material(query, language, country, group_slug, enrichment),
{
    let z = seq![0u8];
    let pre = Seq::<u8>::empty();
    let post = z + bytes_of(language) + z + bytes_of(country) + z + bytes_of(group_slug) + z + bytes_of(enrichment);
    lemma_framed_text(pre, other, query, post);
    assert(key_material(other, language, country, group_slug, enrichment) =~= pre + bytes_of(other) + post);
    assert(key_material(query, language, country, group_slug, enrichment) =~= pre + bytes_of(query) + post);
}

proof fn lemma_separates_by_language(
    query: Seq<char>,
    language: Seq<char>,
    country: Seq<char>,
    group_slug: Seq<char>,
    enrichment: Seq<char>,
    other: Seq<char>,
)
    requires
        other != language,
    ensures
        key_material(query, other, country, group_slug, enrichment) != key_material(query, language, country, group_slug, enrichment),
{
    let z = seq![0u8];
    let pre = bytes_of(query) + z;
    let post = z + bytes_of(country) + z + bytes_of(group_slug) + z + bytes_of(enrichment);
    lemma_framed_text(pre, other, language, post);
    assert(key_material(query, other, country, group_slug, enrichment) =~= pre + bytes_of(other) + post);
    assert(key_material(query, language, country, group_slug, enrichment) =~= pre + bytes_of(language) + post);
}

proof fn lemma_separates_by_country(
    query: Seq<char>,
    language: Seq<char>,
    country: Seq<char>,
    group_slug: Seq<char>,
    enrichment: Seq<char>,
    other: Seq<char>,
)
    requires
        other != country,
    ensures
        key_material(query, language, other, group_slug, enrichment) != key_material(query, language, country, group_slug, enrichment),
{
    let z = seq![0u8];
    let pre = bytes_of(query) + z + bytes_of(language) + z;
    let post = z + bytes_of(group_slug) + z + bytes_of(enrichment);
    lemma_framed_text(pre, other, country, post);
    assert(key_material(query, language, other, group_slug, enrichment) =~= pre + bytes_of(other) + post);
    assert(key_material(query, language, country, group_slug, enrichment) =~= pre + bytes_of(country) + post);
}

proof fn lemma_separates_by_group_slug(
    query: Seq<char>,
    language: Seq<char>,
    country: Seq<char>,
    group_slug: Seq<char>,
    enrichment: Seq<char>,
    other: Seq<char>,
)
    requires
        other != group_slug,
    ensures
        key_material(query, language, country, other, enrichment) != key_material(query, language, country, group_slug, enrichment),
{
    let z = seq![0u8];
    let pre = bytes_of(query) + z + bytes_of(language) + z + bytes_of(country) + z;
    let post = z + bytes_of(enrichment);
    lemma_framed_text(pre, other, group_slug, post);
    assert(key_material(query, language, country, other, enrichment) =~= pre + bytes_of(other) + post);
    assert(key_material(query, language, country, group_slug, enrichment) =~= pre + bytes_of(group_slug) + post);
}

/// Requests that differ in any one of their query, language, country or
/// group digest different key material, so none of them is answered from
/// the results cached for another (barring a SHA-256 collision): a search
/// for one country is never served what was cached for another.
pub proof fn law_key_material_separates_requests(
    query: Seq<char>,
    language: Seq<char>,
    country: Seq<char>,
    group_slug: Seq<char>,
    enrichment: Seq<char>,
    other: Seq<char>,
)
    ensures
        other != query ==> key_material(other, language, country, group_slug, enrichment)
            != key_material(query, language, country, group_slug, enrichment),
        other != language ==> key_material(query, other, country, group_slug, enrichment)
            != key_material(query, language, country, group_slug, enrichment),
        other != country ==> key_material(query, language, other, group_slug, enrichment)
            != key_material(query, language, country, group_slug, enrichment),
        other != group_slug ==> key_material(query, language, country, other, enrichment)
            != key_material(query, language, country, group_slug, enrichment),
{
    if other != query {
        lemma_separates_by_query(query, language, country, group_slug, enrichment, other);
    }
    if other != language {
        lemma_separates_by_language(query, language, country, group_slug, enrichment, other);
    }
    if other != country {
        lemma_separates_by_country(query, language, country, group_slug, enrichment, other);
    }
    if other != group_slug {
        lemma_separates_by_group_slug(query, language, country, group_slug, enrichment, other);
    }
}

} // verus!
