//! The decisions of a content fetch across extraction providers: URLs are
//! handed out in batches, each provider only gets what earlier ones could
//! not extract, and one document per requested URL comes back.

use vstd::prelude::*;
use crate::errors::{plain_error, AppError};
use crate::executor::{chain_entry, keep_providers, with_slugs, AttemptRecord};
use crate::models::{Candidate, FullContent};
use crate::providers::{ContentDoc, ContentOutput, ProviderError};
use crate::rate_limit::{max_cooldown_ms, Cooldown, ErrorType, RateLimitState};
use crate::stats::StatsTracker;
use crate::text::{concat3, contains_str, join, spec_join, str_eq, to_owned_string, views};

verus! {

/// One page's outcome: content on success, an error when no provider in the
/// chain could extract it.
#[derive(Debug)]
pub struct ExtractedDoc {
    pub url: String,
    pub title: Option<String>,
    pub published_date: Option<String>,
    pub content: Option<FullContent>,
    /// Slug of the provider that produced `content`, or "" when unresolved.
    pub source: String,
    pub error: Option<String>,
}

/// The first position of a doc with this URL.
pub open spec fn doc_pos(docs: Seq<ExtractedDoc>, url: Seq<char>) -> Option<int>
    decreases docs.len(),
{
    if docs.len() == 0 {
        None
    } else {
        match doc_pos(docs.drop_last(), url) {
            Some(i) => Some(i),
            None => if docs.last().url@ == url { Some(docs.len() - 1) } else { None },
        }
    }
}

/// The docs with `d` stored under its URL, replacing an earlier doc there.
pub open spec fn put_doc(docs: Seq<ExtractedDoc>, d: ExtractedDoc) -> Seq<ExtractedDoc> {
    match doc_pos(docs, d.url@) {
        Some(i) => docs.update(i, d),
        None => docs.push(d),
    }
}

/// The first position of a reason for this URL.
pub open spec fn reason_pos(rs: Seq<(String, String)>, url: Seq<char>) -> Option<int>
    decreases rs.len(),
{
    if rs.len() == 0 {
        None
    } else {
        match reason_pos(rs.drop_last(), url) {
            Some(i) => Some(i),
            None => if rs.last().0@ == url { Some(rs.len() - 1) } else { None },
        }
    }
}

/// The reasons with `reason` stored for `url`, replacing an earlier one.
pub open spec fn put_reason(rs: Seq<(String, String)>, url: String, reason: String) -> Seq<(String, String)> {
    match reason_pos(rs, url@) {
        Some(i) => rs.update(i, (url, reason)),
        None => rs.push((url, reason)),
    }
}

pub(crate) proof fn lemma_doc_pos(docs: Seq<ExtractedDoc>, url: Seq<char>)
    ensures
        doc_pos(docs, url) matches Some(i) ==> 0 <= i < docs.len() && docs[i].url@ == url
            && forall|j: int| 0 <= j < i ==> docs[j].url@ != url,
        doc_pos(docs, url) is None ==> forall|j: int| 0 <= j < docs.len() ==> docs[j].url@ != url,
    decreases docs.len(),
{
    if docs.len() > 0 {
        let d = docs.drop_last();
        lemma_doc_pos(d, url);
        assert forall|j: int| 0 <= j < d.len() implies d[j] == docs[j] by {}
    }
}

proof fn lemma_reason_pos(rs: Seq<(String, String)>, url: Seq<char>)
    ensures
        reason_pos(rs, url) matches Some(i) ==> 0 <= i < rs.len() && rs[i].0@ == url
            && forall|j: int| 0 <= j < i ==> rs[j].0@ != url,
        reason_pos(rs, url) is None ==> forall|j: int| 0 <= j < rs.len() ==> rs[j].0@ != url,
    decreases rs.len(),
{
    if rs.len() > 0 {
        let d = rs.drop_last();
        lemma_reason_pos(d, url);
        assert forall|j: int| 0 <= j < d.len() implies d[j] == rs[j] by {}
    }
}

pub(crate) fn find_doc(docs: &Vec<ExtractedDoc>, url: &str) -> (res: Option<usize>)
    ensures
        match res {
            Some(i) => doc_pos(docs@, url@) == Some(i as int) && i < docs@.len(),
            None => doc_pos(docs@, url@) is None,
        },
{
    proof { lemma_doc_pos(docs@, url@); }
    let mut i: usize = 0;
    while i < docs.len()
        invariant
            i <= docs@.len(),
            forall|j: int| 0 <= j < i ==> docs@[j].url@ != url@,
            doc_pos(docs@, url@) matches Some(k) ==> 0 <= k < docs@.len() && docs@[k].url@ == url@
                && forall|j: int| 0 <= j < k ==> docs@[j].url@ != url@,
            doc_pos(docs@, url@) is None ==> forall|j: int| 0 <= j < docs@.len() ==> docs@[j].url@ != url@,
        decreases docs.len() - i,
    {
        if str_eq(docs[i].url.as_str(), url) {
            return Some(i);
        }
        i = i + 1;
    }
    None
}

fn find_reason(rs: &Vec<(String, String)>, url: &str) -> (res: Option<usize>)
    ensures
        match res {
            Some(i) => reason_pos(rs@, url@) == Some(i as int) && i < rs@.len(),
            None => reason_pos(rs@, url@) is None,
        },
{
    proof { lemma_reason_pos(rs@, url@); }
    let mut i: usize = 0;
    while i < rs.len()
        invariant
            i <= rs@.len(),
            forall|j: int| 0 <= j < i ==> rs@[j].0@ != url@,
            reason_pos(rs@, url@) matches Some(k) ==> 0 <= k < rs@.len() && rs@[k].0@ == url@
                && forall|j: int| 0 <= j < k ==> rs@[j].0@ != url@,
            reason_pos(rs@, url@) is None ==> forall|j: int| 0 <= j < rs@.len() ==> rs@[j].0@ != url@,
        decreases rs.len() - i,
    {
        if str_eq(rs[i].0.as_str(), url) {
            return Some(i);
        }
        i = i + 1;
    }
    None
}

/// Stores `d` under its URL.
pub(crate) fn store_doc(docs: &mut Vec<ExtractedDoc>, d: ExtractedDoc)
    ensures
        final(docs)@ == put_doc(old(docs)@, d),
{
    match find_doc(docs, d.url.as_str()) {
        Some(i) => {
            docs.set(i, d);
        },
        None => {
            docs.push(d);
        },
    }
}

/// Stores `reason` for `url`.
fn store_reason(rs: &mut Vec<(String, String)>, url: String, reason: String)
    ensures
        final(rs)@ == put_reason(old(rs)@, url, reason),
{
    match find_reason(rs, url.as_str()) {
        Some(i) => {
            rs.set(i, (url, reason));
        },
        None => {
            rs.push((url, reason));
        },
    }
}

/// The message of a URL that nothing could fetch and no provider explained.
pub open spec fn default_failure() -> Seq<char> {
    "no extractor could fetch this URL"@
}

/// Whether `u` occurs among the first `k` requested URLs.
pub open spec fn seen_before(requested: Seq<String>, k: int, u: Seq<char>) -> bool {
    exists|j: int| 0 <= j < k && #[trigger] requested[j]@ == u
}

/// The requested URLs without repeats, in order of first request.
pub open spec fn distinct_urls(requested: Seq<String>, k: int) -> Seq<Seq<char>>
    decreases k,
{
    if k <= 0 {
        Seq::empty()
    } else if seen_before(requested, k - 1, requested[k - 1]@) {
        distinct_urls(requested, k - 1)
    } else {
        distinct_urls(requested, k - 1).push(requested[k - 1]@)
    }
}

/// What one assembled doc says for a URL: the resolved doc when there is
/// one, else an error doc with the last reason given for it.
pub open spec fn assembled_for(
    resolved: Seq<ExtractedDoc>,
    reasons: Seq<(String, String)>,
    u: Seq<char>,
    d: ExtractedDoc,
) -> bool {
    match doc_pos(resolved, u) {
        Some(i) => d == resolved[i],
        None => {
            &&& d.url@ == u
            &&& d.title is None
            &&& d.published_date is None
            &&& d.content is None
            &&& d.source@.len() == 0
            &&& d.error matches Some(m) && m@ == (match reason_pos(reasons, u) {
                Some(r) => reasons[r].1@,
                None => default_failure(),
            })
        }
    }
}

/// Re-emits one doc per requested URL, in request order, without repeats:
/// the resolved doc for the URL, or an error doc carrying the last failure
/// reason recorded for it (or a default message).
pub fn assemble_docs(
    requested: &Vec<String>,
    resolved: Vec<ExtractedDoc>,
    last_reason: &Vec<(String, String)>,
) -> (res: Vec<ExtractedDoc>)
    ensures
        res@.len() == distinct_urls(requested@, requested@.len() as int).len(),
        forall|k: int| 0 <= k < res@.len() ==> assembled_for(
            resolved@,
            last_reason@,
            distinct_urls(requested@, requested@.len() as int)[k],
            #[trigger] res@[k],
        ),
{
    let ghost orig = resolved@;
    let mut pool = resolved;
    let mut seen: Vec<String> = Vec::new();
    let mut out: Vec<ExtractedDoc> = Vec::new();
    let mut i: usize = 0;
    while i < requested.len()
        invariant
            i <= requested@.len(),
            views(seen@) == distinct_urls(requested@, i as int),
            forall|u: Seq<char>| seen_before(requested@, i as int, u) <==> views(seen@).contains(u),
            out@.len() == seen@.len(),
            pool@.len() == orig.len(),
            forall|j: int| 0 <= j < pool@.len() && !views(seen@).contains(orig[j].url@) ==> pool@[j] == orig[j],
            forall|j: int| 0 <= j < pool@.len() ==> pool@[j].url@ == orig[j].url@,
            forall|k: int| 0 <= k < out@.len() ==> assembled_for(orig, last_reason@, views(seen@)[k], #[trigger] out@[k]),
        decreases requested.len() - i,
    {
        let u = requested[i].as_str();
        let ghost before_seen = seen@;
        if !contains_str(&seen, u) {
            proof {
                lemma_doc_pos(orig, u@);
            }
            let d = match find_doc(&pool, u) {
                Some(k) => {
                    assert(doc_pos(pool@, u@) == doc_pos(orig, u@)) by {
                        lemma_same_urls_same_pos(pool@, orig, u@);
                    }
                    let placeholder = ExtractedDoc {
                        url: pool[k].url.clone(),
                        title: None,
                        published_date: None,
                        content: None,
                        source: String::new(),
                        error: None,
                    };
                    let ghost before_pool = pool@;
                    let taken = pool.remove(k);
                    pool.insert(k, placeholder);
                    proof {
                        assert(taken == before_pool[k as int]);
                        assert(pool@ =~= before_pool.update(k as int, placeholder));
                    }
                    taken
                },
                None => {
                    proof { lemma_same_urls_same_pos(pool@, orig, u@); }
                    let error = match find_reason(last_reason, u) {
                        Some(r) => {
                            proof { lemma_reason_pos(last_reason@, u@); }
                            last_reason[r].1.clone()
                        },
                        None => to_owned_string("no extractor could fetch this URL"),
                    };
                    ExtractedDoc {
                        url: to_owned_string(u),
                        title: None,
                        published_date: None,
                        content: None,
                        source: String::new(),
                        error: Some(error),
                    }
                },
            };
            out.push(d);
            seen.push(requested[i].clone());
            proof {
                assert(!seen_before(requested@, i as int, u@));
                assert(views(seen@) =~= views(before_seen).push(u@));
                assert(distinct_urls(requested@, i + 1) == distinct_urls(requested@, i as int).push(u@));
                assert forall|v: Seq<char>| seen_before(requested@, i + 1, v) <==> views(seen@).contains(v) by {
                    if seen_before(requested@, i + 1, v) {
                        let j = choose|j: int| 0 <= j < i + 1 && #[trigger] requested@[j]@ == v;
                        if j < i {
                            assert(seen_before(requested@, i as int, v));
                            assert(views(before_seen).contains(v));
                            let a = choose|a: int| 0 <= a < views(before_seen).len() && views(before_seen)[a] == v;
                            assert(views(seen@)[a] == v);
                        } else {
                            assert(views(seen@)[views(seen@).len() - 1] == v);
                        }
                    }
                    if views(seen@).contains(v) {
                        let a = choose|a: int| 0 <= a < views(seen@).len() && views(seen@)[a] == v;
                        if a < views(before_seen).len() {
                            assert(views(before_seen)[a] == v);
                            assert(views(before_seen).contains(v));
                            let j = choose|j: int| 0 <= j < i && #[trigger] requested@[j]@ == v;
                            assert(requested@[j]@ == v);
                        } else {
                            assert(requested@[i as int]@ == v);
                        }
                    }
                }
                assert forall|k: int| 0 <= k < out@.len() implies assembled_for(orig, last_reason@, views(seen@)[k], #[trigger] out@[k]) by {
                    if k < out@.len() - 1 {
                        assert(views(seen@)[k] == views(before_seen)[k]);
                    }
                }
            }
        } else {
            proof {
                assert(seen_before(requested@, i as int, u@)) by {
                    let a = choose|a: int| 0 <= a < seen@.len() && #[trigger] seen@[a]@ == u@;
                    assert(views(seen@)[a] == u@);
                }
                assert(distinct_urls(requested@, i + 1) == distinct_urls(requested@, i as int));
                assert forall|v: Seq<char>| seen_before(requested@, i + 1, v) <==> views(seen@).contains(v) by {
                    if seen_before(requested@, i + 1, v) {
                        let j = choose|j: int| 0 <= j < i + 1 && #[trigger] requested@[j]@ == v;
                        if j == i {
                            assert(seen_before(requested@, i as int, v));
                        } else {
                            assert(seen_before(requested@, i as int, v));
                        }
                    }
                }
            }
        }
        i = i + 1;
    }
    proof {
        assert(requested@.len() == i);
    }
    out
}

proof fn lemma_same_urls_same_pos(a: Seq<ExtractedDoc>, b: Seq<ExtractedDoc>, url: Seq<char>)
    requires
        a.len() == b.len(),
        forall|j: int| 0 <= j < a.len() ==> a[j].url@ == b[j].url@,
    ensures
        doc_pos(a, url) == doc_pos(b, url),
    decreases a.len(),
{
    if a.len() > 0 {
        lemma_same_urls_same_pos(a.drop_last(), b.drop_last(), url);
    }
}


// ---------------------------------------------------------------------------
// The fallback chain of a content fetch
// ---------------------------------------------------------------------------

/// The doc stored for a page extracted by the provider `source`.
pub open spec fn extracted(d: ContentDoc, source: String) -> ExtractedDoc {
    ExtractedDoc {
        url: d.url,
        title: d.title,
        published_date: d.published_date,
        content: Some(d.content),
        source,
        error: None,
    }
}

/// The resolved docs after storing the first `k` extracted pages of a
/// provider, each as a doc sourced from `source`.
pub open spec fn resolved_after(resolved: Seq<ExtractedDoc>, docs: Seq<ContentDoc>, source: String, k: int) -> Seq<ExtractedDoc>
    decreases k,
{
    if k <= 0 {
        resolved
    } else {
        put_doc(resolved_after(resolved, docs, source, k - 1), extracted(docs[k - 1], source))
    }
}

/// The reasons after recording the first `k` failures.
pub open spec fn reasons_after(rs: Seq<(String, String)>, failed: Seq<(String, String)>, k: int) -> Seq<(String, String)>
    decreases k,
{
    if k <= 0 {
        rs
    } else {
        put_reason(reasons_after(rs, failed, k - 1), failed[k - 1].0, failed[k - 1].1)
    }
}

/// The reasons after recording `reason` for each of the first `k` URLs.
pub open spec fn reasons_for_all(rs: Seq<(String, String)>, urls: Seq<String>, reason: String, k: int) -> Seq<(String, String)>
    decreases k,
{
    if k <= 0 {
        rs
    } else {
        put_reason(reasons_for_all(rs, urls, reason, k - 1), urls[k - 1], reason)
    }
}

/// The URLs of the batches from position `from` on, in order.
pub open spec fn rest_of(chunks: Seq<Vec<String>>, from: int) -> Seq<String> {
    chunks.subrange(from, chunks.len() as int).map_values(|c: Vec<String>| c@).flatten()
}

/// The unresolved URLs to keep: those not resolved, each once, in order.
pub open spec fn still_unresolved(urls: Seq<String>, resolved: Seq<ExtractedDoc>, k: int) -> Seq<Seq<char>>
    decreases k,
{
    if k <= 0 {
        Seq::empty()
    } else {
        let before = still_unresolved(urls, resolved, k - 1);
        let u = urls[k - 1]@;
        if doc_pos(resolved, u) is None && !before.contains(u) {
            before.push(u)
        } else {
            before
        }
    }
}

/// The state of one content fetch: URLs still to extract, pages extracted
/// so far, the last failure reason per URL, and the chain of attempts.
pub struct ContentRun {
    pub tier_idx: usize,
    pub n_tiers: usize,
    pub max_fallbacks: usize,
    pub real_attempts: usize,
    /// Whether an attempt was begun and is not closed yet.
    pub open: bool,
    pub excluded: Vec<String>,
    pub unresolved: Vec<String>,
    pub resolved: Vec<ExtractedDoc>,
    pub last_reason: Vec<(String, String)>,
    pub providers_used: Vec<String>,
    pub chain_parts: Vec<String>,
    pub attempts: Vec<AttemptRecord>,
}

impl ContentRun {
    /// The run is well formed: every logged attempt, and the open one, was
    /// begun, and no more attempts were begun than one plus the fallbacks.
    pub open spec fn wf(&self) -> bool {
        &&& self.tier_idx <= self.n_tiers
        &&& self.real_attempts <= self.max_fallbacks + 1
        &&& self.max_fallbacks < usize::MAX
        &&& self.attempts@.len() + (if self.open { 1int } else { 0int }) <= self.real_attempts
    }

    /// A fresh fetch of `urls` over `n_tiers` tiers.
    pub fn new(urls: Vec<String>, n_tiers: usize, max_fallbacks: usize) -> (res: ContentRun)
        requires
            max_fallbacks < usize::MAX,
        ensures
            res.wf(),
            res.unresolved == urls,
            res.tier_idx == 0,
            res.n_tiers == n_tiers,
            res.max_fallbacks == max_fallbacks,
            res.real_attempts == 0,
            !res.open,
            res.excluded@.len() == 0,
            res.resolved@.len() == 0,
            res.last_reason@.len() == 0,
            res.providers_used@.len() == 0,
            res.chain_parts@.len() == 0,
            res.attempts@.len() == 0,
    {
        ContentRun {
            tier_idx: 0,
            n_tiers,
            max_fallbacks,
            real_attempts: 0,
            open: false,
            excluded: Vec::new(),
            unresolved: urls,
            resolved: Vec::new(),
            last_reason: Vec::new(),
            providers_used: Vec::new(),
            chain_parts: Vec::new(),
            attempts: Vec::new(),
        }
    }

    pub open spec fn spec_current_tier(&self) -> Option<usize> {
        if self.unresolved@.len() == 0 || self.real_attempts > self.max_fallbacks || self.tier_idx >= self.n_tiers {
            None
        } else {
            Some(self.tier_idx)
        }
    }

    /// The tier to select from next, or none when the fetch must stop:
    /// nothing is left to extract, the fallbacks are used up, or every tier
    /// is exhausted.
    pub fn current_tier(&self) -> (res: Option<usize>)
        ensures
            res == self.spec_current_tier(),
    {
        if self.unresolved.len() == 0 || self.real_attempts > self.max_fallbacks || self.tier_idx >= self.n_tiers {
            None
        } else {
            Some(self.tier_idx)
        }
    }

    /// The current tier has nothing selectable: logs each skipped
    /// candidate as `slug:skipped:reason` and moves on.
    pub fn tier_exhausted(&mut self, skips: &Vec<(String, String)>)
        requires
            old(self).wf(),
            old(self).spec_current_tier() is Some,
            !old(self).open,
        ensures
            final(self).wf(),
            !final(self).open,
            final(self).attempts == old(self).attempts,
            final(self).tier_idx == old(self).tier_idx + 1,
            final(self).n_tiers == old(self).n_tiers,
            final(self).max_fallbacks == old(self).max_fallbacks,
            final(self).real_attempts == old(self).real_attempts,
            final(self).unresolved == old(self).unresolved,
            final(self).resolved == old(self).resolved,
            views(final(self).chain_parts@) == views(old(self).chain_parts@)
                + skips@.map_values(|p: (String, String)| chain_entry(p.0@, "skipped"@ + seq![':'] + p.1@)),
    {
        let mut k: usize = 0;
        let ghost start = views(self.chain_parts@);
        proof { reveal_strlit(":skipped:"); }
        while k < skips.len()
            invariant
                k <= skips@.len(),
                views(self.chain_parts@) == start
                    + skips@.take(k as int).map_values(|p: (String, String)| chain_entry(p.0@, "skipped"@ + seq![':'] + p.1@)),
                self.tier_idx == old(self).tier_idx,
                self.n_tiers == old(self).n_tiers,
                self.max_fallbacks == old(self).max_fallbacks,
                self.real_attempts == old(self).real_attempts,
                self.open == old(self).open,
                self.unresolved == old(self).unresolved,
                self.resolved == old(self).resolved,
                self.attempts == old(self).attempts,
                start == views(old(self).chain_parts@),
            decreases skips.len() - k,
        {
            let entry = concat3(skips[k].0.as_str(), ":skipped:", skips[k].1.as_str());
            let ghost before = self.chain_parts@;
            self.chain_parts.push(entry);
            proof {
                reveal_strlit(":skipped:");
                reveal_strlit("skipped");
                assert(":skipped:"@ =~= seq![':'] + "skipped"@ + seq![':']);
                assert(entry@ =~= chain_entry(skips@[k as int].0@, "skipped"@ + seq![':'] + skips@[k as int].1@));
                assert(views(self.chain_parts@) =~= views(before).push(entry@));
                assert(skips@.take(k + 1).map_values(|p: (String, String)| chain_entry(p.0@, "skipped"@ + seq![':'] + p.1@))
                    =~= skips@.take(k as int).map_values(|p: (String, String)| chain_entry(p.0@, "skipped"@ + seq![':'] + p.1@))
                        .push(chain_entry(skips@[k as int].0@, "skipped"@ + seq![':'] + skips@[k as int].1@)));
            }
            k = k + 1;
        }
        proof {
            assert(skips@.take(skips@.len() as int) =~= skips@);
        }
        self.tier_idx = self.tier_idx + 1;
    }

    /// A candidate was selected: counts the attempt and excludes its key from
    /// the rest of the fetch.
    pub fn begin_attempt(&mut self, candidate: &Candidate)
        requires
            old(self).wf(),
            old(self).spec_current_tier() is Some,
            !old(self).open,
        ensures
            final(self).wf(),
            final(self).open,
            final(self).real_attempts == old(self).real_attempts + 1,
            views(final(self).excluded@) == views(old(self).excluded@).push(candidate.api_key.id@),
            final(self).tier_idx == old(self).tier_idx,
            final(self).n_tiers == old(self).n_tiers,
            final(self).max_fallbacks == old(self).max_fallbacks,
            final(self).unresolved == old(self).unresolved,
            final(self).resolved == old(self).resolved,
            final(self).last_reason == old(self).last_reason,
            final(self).chain_parts == old(self).chain_parts,
            final(self).attempts == old(self).attempts,
            final(self).providers_used == old(self).providers_used,
    {
        self.real_attempts = self.real_attempts + 1;
        self.open = true;
        let ghost before = self.excluded@;
        self.excluded.push(candidate.api_key.id.clone());
        proof {
            assert(views(self.excluded@) =~= views(before).push(candidate.api_key.id@));
        }
    }

    /// The selected key could not be resolved: logs `slug:auth` and a failed
    /// attempt, closing the open attempt.
    pub fn key_unavailable(&mut self, slug: &str)
        requires
            old(self).wf(),
            old(self).open,
        ensures
            final(self).wf(),
            !final(self).open,
            forall|i: int| 0 <= i < old(self).attempts@.len() ==> final(self).attempts@[i] == old(self).attempts@[i],
            views(final(self).chain_parts@) == views(old(self).chain_parts@).push(chain_entry(slug@, "auth"@)),
            final(self).attempts@.len() == old(self).attempts@.len() + 1,
            final(self).attempts@.last().provider@ == slug@,
            !final(self).attempts@.last().success,
            final(self).attempts@.last().error matches Some(m) && m@ == "auth"@,
            final(self).attempts@.last().duration_ms == 0,
            final(self).tier_idx == old(self).tier_idx,
            final(self).n_tiers == old(self).n_tiers,
            final(self).max_fallbacks == old(self).max_fallbacks,
            final(self).real_attempts == old(self).real_attempts,
            final(self).unresolved == old(self).unresolved,
            final(self).resolved == old(self).resolved,
    {
        let ghost before = self.chain_parts@;
        let entry = concat3(slug, ":", "auth");
        self.chain_parts.push(entry);
        proof {
            reveal_strlit(":");
            assert(":"@ =~= seq![':']);
            assert(views(self.chain_parts@) =~= views(before).push(chain_entry(slug@, "auth"@)));
        }
        self.attempts.push(AttemptRecord {
            provider: to_owned_string(slug),
            success: false,
            error: Some(to_owned_string("auth")),
            duration_ms: 0,
        });
        self.open = false;
    }

    /// The selected candidate's provider has no page extractor: the attempt
    /// counts but logs nothing, and is closed.
    pub fn abandon_attempt(&mut self)
        requires
            old(self).wf(),
            old(self).open,
        ensures
            final(self).wf(),
            !final(self).open,
            final(self).tier_idx == old(self).tier_idx,
            final(self).n_tiers == old(self).n_tiers,
            final(self).max_fallbacks == old(self).max_fallbacks,
            final(self).real_attempts == old(self).real_attempts,
            final(self).excluded == old(self).excluded,
            final(self).unresolved == old(self).unresolved,
            final(self).resolved == old(self).resolved,
            final(self).last_reason == old(self).last_reason,
            final(self).providers_used == old(self).providers_used,
            final(self).chain_parts == old(self).chain_parts,
            final(self).attempts == old(self).attempts,
    {
        self.open = false;
    }

    /// Hands out every unresolved URL as batches of at most `max_batch`
    /// (at least one) URLs, leaving none unresolved.
    pub fn take_batch(&mut self, max_batch: usize) -> (res: Vec<Vec<String>>)
        ensures
            final(self).unresolved@.len() == 0,
            res@.map_values(|c: Vec<String>| c@).flatten() == old(self).unresolved@,
            forall|j: int| 0 <= j < res@.len() ==> (#[trigger] res@[j])@.len() >= 1
                && res@[j]@.len() <= (if max_batch == 0 { 1 } else { max_batch as int }),
            forall|j: int| 0 <= j < res@.len() - 1 ==> (#[trigger] res@[j])@.len()
                == (if max_batch == 0 { 1 } else { max_batch as int }),
            final(self).tier_idx == old(self).tier_idx,
            final(self).n_tiers == old(self).n_tiers,
            final(self).max_fallbacks == old(self).max_fallbacks,
            final(self).real_attempts == old(self).real_attempts,
            final(self).open == old(self).open,
            final(self).resolved == old(self).resolved,
            final(self).last_reason == old(self).last_reason,
            final(self).excluded == old(self).excluded,
            final(self).chain_parts == old(self).chain_parts,
            final(self).attempts == old(self).attempts,
            final(self).providers_used == old(self).providers_used,
    {
        let size: usize = if max_batch == 0 { 1 } else { max_batch };
        let mut rest = Vec::new();
        std::mem::swap(&mut rest, &mut self.unresolved);
        let ghost all = rest@;
        let mut chunks: Vec<Vec<String>> = Vec::new();
        let mut cur: Vec<String> = Vec::new();
        let ghost mut i: int = 0;
        proof {
            assert(all.skip(0) =~= all);
            assert(chunks@.map_values(|c: Vec<String>| c@).flatten() + cur@ =~= all.take(0));
        }
        while rest.len() > 0
            invariant
                0 <= i <= all.len(),
                rest@ == all.skip(i),
                size >= 1,
                size == (if max_batch == 0 { 1 } else { max_batch as int }),
                cur@.len() < size,
                chunks@.map_values(|c: Vec<String>| c@).flatten() + cur@ == all.take(i),
                forall|j: int| 0 <= j < chunks@.len() ==> (#[trigger] chunks@[j])@.len() == size,
            decreases rest.len(),
        {
            let u = rest.remove(0);
            let ghost before_chunks = chunks@;
            cur.push(u);
            proof {
                assert(u == all[i]);
                assert(rest@ =~= all.skip(i + 1));
                assert(all.take(i + 1) =~= all.take(i).push(u));
                assert(chunks@.map_values(|c: Vec<String>| c@).flatten() + cur@ =~= all.take(i + 1));
                i = i + 1;
            }
            if cur.len() == size {
                let mut full = Vec::new();
                std::mem::swap(&mut full, &mut cur);
                chunks.push(full);
                proof {
                    assert(chunks@.map_values(|c: Vec<String>| c@) =~= before_chunks.map_values(|c: Vec<String>| c@).push(full@));
                    before_chunks.map_values(|c: Vec<String>| c@).lemma_flatten_push(full@);
                    assert(chunks@.map_values(|c: Vec<String>| c@).flatten() + cur@ =~= all.take(i));
                }
            }
        }
        if cur.len() > 0 {
            let ghost before_chunks = chunks@;
            chunks.push(cur);
            proof {
                assert(chunks@.map_values(|c: Vec<String>| c@) =~= before_chunks.map_values(|c: Vec<String>| c@).push(cur@));
                before_chunks.map_values(|c: Vec<String>| c@).lemma_flatten_push(cur@);
            }
        } else {
            proof { assert(chunks@.map_values(|c: Vec<String>| c@).flatten() + cur@ =~= chunks@.map_values(|c: Vec<String>| c@).flatten()); }
        }
        proof {
            assert(all.take(i) =~= all);
        }
        chunks
    }

    /// Takes in what a provider returned for one batch: each extracted page
    /// is stored as a doc sourced from `source` (replacing an earlier doc for
    /// its URL), and each URL it could not extract goes back to the
    /// unresolved list with its reason recorded. Returns whether any page
    /// was extracted.
    pub fn apply_output(&mut self, source: &String, output: ContentOutput) -> (got_any: bool)
        ensures
            got_any == (output.docs@.len() > 0),
            final(self).resolved@ == resolved_after(old(self).resolved@, output.docs@, *source, output.docs@.len() as int),
            final(self).last_reason@ == reasons_after(old(self).last_reason@, output.failed@, output.failed@.len() as int),
            final(self).unresolved@ == old(self).unresolved@ + output.failed@.map_values(|p: (String, String)| p.0),
            final(self).tier_idx == old(self).tier_idx,
            final(self).n_tiers == old(self).n_tiers,
            final(self).max_fallbacks == old(self).max_fallbacks,
            final(self).real_attempts == old(self).real_attempts,
            final(self).open == old(self).open,
            final(self).excluded == old(self).excluded,
            final(self).chain_parts == old(self).chain_parts,
            final(self).attempts == old(self).attempts,
            final(self).providers_used == old(self).providers_used,
    {
        let ContentOutput { docs, failed } = output;
        let got_any = docs.len() > 0;
        let mut docs = docs;
        let ghost all_docs = docs@;
        let ghost mut i: int = 0;
        proof { assert(all_docs.skip(0) =~= all_docs); }
        while docs.len() > 0
            invariant
                0 <= i <= all_docs.len(),
                docs@ == all_docs.skip(i),
                self.resolved@ == resolved_after(old(self).resolved@, all_docs, *source, i),
                self.last_reason == old(self).last_reason,
                self.unresolved == old(self).unresolved,
                self.tier_idx == old(self).tier_idx,
                self.n_tiers == old(self).n_tiers,
                self.max_fallbacks == old(self).max_fallbacks,
                self.real_attempts == old(self).real_attempts,
                self.open == old(self).open,
                self.excluded == old(self).excluded,
                self.chain_parts == old(self).chain_parts,
                self.attempts == old(self).attempts,
                self.providers_used == old(self).providers_used,
            decreases docs.len(),
        {
            let d = docs.remove(0);
            proof {
                assert(d == all_docs[i]);
                assert(docs@ =~= all_docs.skip(i + 1));
            }
            let e = ExtractedDoc {
                url: d.url,
                title: d.title,
                published_date: d.published_date,
                content: Some(d.content),
                source: source.clone(),
                error: None,
            };
            proof { assert(e == extracted(all_docs[i], *source)); }
            store_doc(&mut self.resolved, e);
            proof { i = i + 1; }
        }
        let mut failed = failed;
        let ghost all_failed = failed@;
        let ghost mut k: int = 0;
        proof {
            assert(all_failed.skip(0) =~= all_failed);
            assert(old(self).unresolved@ =~= old(self).unresolved@ + all_failed.take(0).map_values(|p: (String, String)| p.0));
        }
        while failed.len() > 0
            invariant
                0 <= k <= all_failed.len(),
                failed@ == all_failed.skip(k),
                self.last_reason@ == reasons_after(old(self).last_reason@, all_failed, k),
                self.unresolved@ == old(self).unresolved@ + all_failed.take(k).map_values(|p: (String, String)| p.0),
                self.resolved@ == resolved_after(old(self).resolved@, all_docs, *source, all_docs.len() as int),
                self.tier_idx == old(self).tier_idx,
                self.n_tiers == old(self).n_tiers,
                self.max_fallbacks == old(self).max_fallbacks,
                self.real_attempts == old(self).real_attempts,
                self.open == old(self).open,
                self.excluded == old(self).excluded,
                self.chain_parts == old(self).chain_parts,
                self.attempts == old(self).attempts,
                self.providers_used == old(self).providers_used,
            decreases failed.len(),
        {
            let (u, r) = failed.remove(0);
            proof {
                assert((u, r) == all_failed[k]);
                assert(failed@ =~= all_failed.skip(k + 1));
                assert(all_failed.take(k + 1).map_values(|p: (String, String)| p.0)
                    =~= all_failed.take(k).map_values(|p: (String, String)| p.0).push(u));
            }
            self.unresolved.push(u.clone());
            store_reason(&mut self.last_reason, u, r);
            proof { k = k + 1; }
        }
        proof {
            assert(all_failed.take(all_failed.len() as int) =~= all_failed);
        }
        got_any
    }

    /// A provider failed hard on the batch at position `from`: every URL of
    /// that batch and the ones after it goes back to the unresolved list, with
    /// `reason` recorded for it.
    pub fn apply_error(&mut self, chunks: &Vec<Vec<String>>, from: usize, reason: String)
        requires
            from <= chunks@.len(),
        ensures
            final(self).unresolved@ == old(self).unresolved@ + rest_of(chunks@, from as int),
            final(self).last_reason@ == reasons_for_all(
                old(self).last_reason@,
                rest_of(chunks@, from as int),
                reason,
                rest_of(chunks@, from as int).len() as int,
            ),
            final(self).resolved == old(self).resolved,
            final(self).tier_idx == old(self).tier_idx,
            final(self).n_tiers == old(self).n_tiers,
            final(self).max_fallbacks == old(self).max_fallbacks,
            final(self).real_attempts == old(self).real_attempts,
            final(self).open == old(self).open,
            final(self).excluded == old(self).excluded,
            final(self).chain_parts == old(self).chain_parts,
            final(self).attempts == old(self).attempts,
            final(self).providers_used == old(self).providers_used,
    {
        let rest = flatten_from(chunks, from);
        let mut j: usize = 0;
        while j < rest.len()
            invariant
                j <= rest@.len(),
                rest@ == rest_of(chunks@, from as int),
                self.unresolved@ == old(self).unresolved@ + rest@.take(j as int),
                self.last_reason@ == reasons_for_all(old(self).last_reason@, rest@, reason, j as int),
                self.resolved == old(self).resolved,
                self.tier_idx == old(self).tier_idx,
                self.n_tiers == old(self).n_tiers,
                self.max_fallbacks == old(self).max_fallbacks,
                self.real_attempts == old(self).real_attempts,
                self.open == old(self).open,
                self.excluded == old(self).excluded,
                self.chain_parts == old(self).chain_parts,
                self.attempts == old(self).attempts,
                self.providers_used == old(self).providers_used,
            decreases rest.len() - j,
        {
            self.unresolved.push(rest[j].clone());
            store_reason(&mut self.last_reason, rest[j].clone(), reason.clone());
            proof {
                assert(rest@.take(j + 1) =~= rest@.take(j as int).push(rest@[j as int]));
            }
            j = j + 1;
        }
        proof {
            assert(rest@.take(rest@.len() as int) =~= rest@);
        }
    }

    /// Closes an attempt of `candidate`: the provider counts as used when it
    /// extracted anything; the chain gets `slug:kind` after a hard error and
    /// `slug:ok` otherwise; a hard error puts the key in cooldown for its
    /// kind at `now`; the provider's stats count an error search after a hard
    /// error or when nothing was extracted; and the attempt is logged (an
    /// attempt that extracted nothing without a hard error says "empty").
    /// Returns the kind of the hard error, if there was one.
    pub fn finish_attempt(
        &mut self,
        candidate: &Candidate,
        got_any: bool,
        hard_err: Option<&ProviderError>,
        duration_ms: u64,
        rate_limit: &mut RateLimitState,
        stats: &mut StatsTracker,
        now: u64,
    ) -> (res: Option<ErrorType>)
        requires
            old(self).wf(),
            old(self).open,
            now <= u64::MAX - max_cooldown_ms(),
        ensures
            final(self).wf(),
            !final(self).open,
            res == (match hard_err {
                Some(e) => Some(e.spec_error_type()),
                None => None::<ErrorType>,
            }),
            views(final(self).providers_used@) == (if got_any && !views(old(self).providers_used@).contains(candidate.provider.slug@) {
                views(old(self).providers_used@).push(candidate.provider.slug@)
            } else {
                views(old(self).providers_used@)
            }),
            views(final(self).chain_parts@) == views(old(self).chain_parts@).push(chain_entry(
                candidate.provider.slug@,
                match res {
                    Some(et) => et.spec_name(),
                    None => "ok"@,
                },
            )),
            final(self).attempts@.len() == old(self).attempts@.len() + 1,
            forall|i: int| 0 <= i < old(self).attempts@.len() ==> final(self).attempts@[i] == old(self).attempts@[i],
            ({
                let a = final(self).attempts@.last();
                &&& a.provider@ == candidate.provider.slug@
                &&& a.success == got_any
                &&& a.duration_ms == duration_ms
                &&& match res {
                    Some(et) => a.error matches Some(m) && m@ == et.spec_name(),
                    None => if got_any { a.error is None } else { a.error matches Some(m) && m@ == "empty"@ },
                }
            }),
            final(rate_limit)@ == (match res {
                Some(et) => old(rate_limit)@.insert(
                    candidate.api_key.id@,
                    Cooldown { unblocked_at_ms: (now + et.spec_cooldown_secs() * 1000) as u64, error_type: et },
                ),
                None => old(rate_limit)@,
            }),
            exists|e: crate::stats::SearchEvent| #![trigger old(stats)@.push(e)]
                e.at_ms == now && e.provider@ == candidate.provider.slug@
                && e.is_error == (res is Some || !got_any)
                && e.duration_ms == duration_ms
                && final(stats)@ == crate::stats::prune_events(old(stats)@.push(e), if now >= crate::stats::retention_ms() {
                    (now - crate::stats::retention_ms()) as u64
                } else {
                    0
                }),
            final(self).tier_idx == old(self).tier_idx,
            final(self).n_tiers == old(self).n_tiers,
            final(self).max_fallbacks == old(self).max_fallbacks,
            final(self).real_attempts == old(self).real_attempts,
            final(self).excluded == old(self).excluded,
            final(self).unresolved == old(self).unresolved,
            final(self).resolved == old(self).resolved,
            final(self).last_reason == old(self).last_reason,
    {
        let slug = candidate.provider.slug.as_str();
        proof { crate::text::lemma_has_iff_views_contains(self.providers_used@, slug@); }
        if got_any && !contains_str(&self.providers_used, slug) {
            let ghost before = self.providers_used@;
            self.providers_used.push(candidate.provider.slug.clone());
            proof {
                assert(views(self.providers_used@) =~= views(before).push(candidate.provider.slug@));
            }
        }
        let ghost old_chain = self.chain_parts@;
        proof {
            reveal_strlit(":");
            reveal_strlit("ok");
            reveal_strlit("empty");
            assert(":"@ =~= seq![':']);
        }
        match hard_err {
            Some(e) => {
                let et = e.error_type();
                let code = et.as_str();
                self.chain_parts.push(concat3(slug, ":", code));
                proof {
                    assert(self.chain_parts@.last()@ == chain_entry(slug@, et.spec_name()));
                    assert(views(self.chain_parts@) =~= views(old_chain).push(chain_entry(slug@, et.spec_name())));
                }
                rate_limit.report_error(candidate.api_key.id.as_str(), et, now);
                stats.record_search(slug, true, duration_ms, now);
                self.attempts.push(AttemptRecord {
                    provider: to_owned_string(slug),
                    success: got_any,
                    error: Some(to_owned_string(code)),
                    duration_ms,
                });
                self.open = false;
                Some(et)
            },
            None => {
                self.chain_parts.push(concat3(slug, ":", "ok"));
                proof {
                    assert(self.chain_parts@.last()@ == chain_entry(slug@, "ok"@));
                    assert(views(self.chain_parts@) =~= views(old_chain).push(chain_entry(slug@, "ok"@)));
                }
                stats.record_search(slug, !got_any, duration_ms, now);
                let error = if got_any { None } else { Some(to_owned_string("empty")) };
                self.attempts.push(AttemptRecord {
                    provider: to_owned_string(slug),
                    success: got_any,
                    error,
                    duration_ms,
                });
                self.open = false;
                None
            },
        }
    }

    /// Drops every unresolved URL that now has a doc, and repeats of the
    /// rest, keeping the order of first occurrence.
    pub fn prune_unresolved(&mut self)
        ensures
            views(final(self).unresolved@) == still_unresolved(
                old(self).unresolved@,
                old(self).resolved@,
                old(self).unresolved@.len() as int,
            ),
            final(self).resolved == old(self).resolved,
            final(self).last_reason == old(self).last_reason,
            final(self).tier_idx == old(self).tier_idx,
            final(self).n_tiers == old(self).n_tiers,
            final(self).max_fallbacks == old(self).max_fallbacks,
            final(self).real_attempts == old(self).real_attempts,
            final(self).open == old(self).open,
            final(self).excluded == old(self).excluded,
            final(self).chain_parts == old(self).chain_parts,
            final(self).attempts == old(self).attempts,
            final(self).providers_used == old(self).providers_used,
    {
        let mut all = Vec::new();
        std::mem::swap(&mut all, &mut self.unresolved);
        let mut kept: Vec<String> = Vec::new();
        let mut i: usize = 0;
        while i < all.len()
            invariant
                i <= all@.len(),
                all@ == old(self).unresolved@,
                views(kept@) == still_unresolved(all@, self.resolved@, i as int),
                self.resolved == old(self).resolved,
            decreases all.len() - i,
        {
            let u = all[i].as_str();
            let ghost before = kept@;
            proof { crate::text::lemma_has_iff_views_contains(kept@, u@); }
            let known = find_doc(&self.resolved, u).is_some();
            if !known && !contains_str(&kept, u) {
                kept.push(all[i].clone());
                proof {
                    assert(views(kept@) =~= views(before).push(u@));
                }
            }
            i = i + 1;
        }
        self.unresolved = kept;
    }

    /// The chain so far, entries joined by commas.
    pub fn fallback_chain(&self) -> (res: String)
        ensures
            res@ == spec_join(views(self.chain_parts@), ","@),
    {
        join(&self.chain_parts, ",")
    }
}

/// The answer to a content request when no candidate's provider can
/// extract pages.
pub fn no_extractor_error() -> (res: AppError)
    ensures
        plain_error(res, 503, "No content-extraction provider candidates available"@, "no_providers_available"@),
{
    AppError::service_unavailable(to_owned_string("No content-extraction provider candidates available"))
}

/// The candidates a content fetch draws on: nothing to do (`Ok(None)`, no
/// provider consulted) when no URL is left to fetch; else the candidates
/// whose provider can extract pages, in pool order, or a 503 when there
/// is none.
pub fn extraction_pool(
    urls: &Vec<String>,
    pool: Vec<Candidate>,
    extractors: &Vec<String>,
) -> (res: Result<Option<Vec<Candidate>>, AppError>)
    ensures
        urls@.len() == 0 ==> res matches Ok(None),
        urls@.len() > 0 && with_slugs(pool@, extractors@).len() == 0 ==> (res matches Err(e) && plain_error(
            e,
            503,
            "No content-extraction provider candidates available"@,
            "no_providers_available"@,
        )),
        urls@.len() > 0 && with_slugs(pool@, extractors@).len() > 0 ==> (res matches Ok(Some(p))
            && p@ == with_slugs(pool@, extractors@)),
{
    if urls.len() == 0 {
        return Ok(None);
    }
    let kept = keep_providers(pool, extractors);
    if kept.len() == 0 {
        Err(no_extractor_error())
    } else {
        Ok(Some(kept))
    }
}

/// A page fetch logs at most one attempt more than the fallbacks allowed:
/// every logged attempt was begun, and no more were begun than that.
pub proof fn law_content_attempts_bounded(run: ContentRun)
    requires
        run.wf(),
    ensures
        run.attempts@.len() <= run.real_attempts <= run.max_fallbacks + 1,
{
}

/// The URLs of the batches from position `from` on, in order.
fn flatten_from(chunks: &Vec<Vec<String>>, from: usize) -> (res: Vec<String>)
    requires
        from <= chunks@.len(),
    ensures
        res@ == rest_of(chunks@, from as int),
{
    let mut out: Vec<String> = Vec::new();
    let mut c: usize = from;
    proof {
        assert(chunks@.subrange(from as int, from as int).map_values(|v: Vec<String>| v@) =~= Seq::<Seq<String>>::empty());
        assert(out@ =~= Seq::<Seq<String>>::empty().flatten());
    }
    while c < chunks.len()
        invariant
            from <= c <= chunks@.len(),
            out@ == chunks@.subrange(from as int, c as int).map_values(|v: Vec<String>| v@).flatten(),
        decreases chunks.len() - c,
    {
        let ghost before = out@;
        let mut j: usize = 0;
        while j < chunks[c].len()
            invariant
                c < chunks@.len(),
                j <= chunks@[c as int]@.len(),
                out@ == before + chunks@[c as int]@.take(j as int),
            decreases chunks@[c as int]@.len() - j,
        {
            out.push(chunks[c][j].clone());
            proof {
                assert(chunks@[c as int]@.take(j + 1) =~= chunks@[c as int]@.take(j as int).push(chunks@[c as int]@[j as int]));
            }
            j = j + 1;
        }
        proof {
            assert(chunks@[c as int]@.take(j as int) =~= chunks@[c as int]@);
            let s = chunks@.subrange(from as int, c as int).map_values(|v: Vec<String>| v@);
            assert(chunks@.subrange(from as int, c + 1).map_values(|v: Vec<String>| v@) =~= s.push(chunks@[c as int]@));
            s.lemma_flatten_push(chunks@[c as int]@);
        }
        c = c + 1;
    }
    out
}

/// After an attempt, the URLs kept for the next provider are exactly the
/// requested ones that still have no doc, each once.
pub proof fn law_unresolved_are_open_and_distinct(urls: Seq<String>, resolved: Seq<ExtractedDoc>, k: int)
    requires
        0 <= k <= urls.len(),
    ensures
        forall|i: int| 0 <= i < still_unresolved(urls, resolved, k).len()
            ==> doc_pos(resolved, #[trigger] still_unresolved(urls, resolved, k)[i]) is None,
        forall|i: int, j: int| 0 <= i < j < still_unresolved(urls, resolved, k).len()
            ==> still_unresolved(urls, resolved, k)[i] != still_unresolved(urls, resolved, k)[j],
        forall|m: int| 0 <= m < k && doc_pos(resolved, #[trigger] urls[m]@) is None
            ==> still_unresolved(urls, resolved, k).contains(urls[m]@),
    decreases k,
{
    if k > 0 {
        law_unresolved_are_open_and_distinct(urls, resolved, k - 1);
        let before = still_unresolved(urls, resolved, k - 1);
        let u = urls[k - 1]@;
        let now = still_unresolved(urls, resolved, k);
        if doc_pos(resolved, u) is None && !before.contains(u) {
            assert(now == before.push(u));
            assert forall|i: int, j: int| 0 <= i < j < now.len() implies now[i] != now[j] by {
                if j == now.len() - 1 {
                    assert(now[i] == before[i]);
                    if now[i] == now[j] {
                        assert(before.contains(u));
                    }
                }
            }
            assert forall|m: int| 0 <= m < k && doc_pos(resolved, #[trigger] urls[m]@) is None implies now.contains(urls[m]@) by {
                if m < k - 1 {
                    let a = choose|a: int| 0 <= a < before.len() && before[a] == urls[m]@;
                    assert(now[a] == urls[m]@);
                } else {
                    assert(now[now.len() - 1] == u);
                }
            }
        } else {
            assert(now == before);
            assert forall|m: int| 0 <= m < k && doc_pos(resolved, #[trigger] urls[m]@) is None implies now.contains(urls[m]@) by {
                if m == k - 1 {
                    assert(before.contains(u));
                }
            }
        }
    }
}

} // verus!
