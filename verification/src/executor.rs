//! The decisions of a search across providers: how a pool is split into
//! priority tiers, and how the fallback chain advances as attempts fail.
//! The caller performs each attempt and reports its outcome.

use vstd::prelude::*;
use crate::errors::{plain_error, AppError};
use crate::models::{Candidate, SearchLog};
use crate::providers::ProviderError;
use crate::rate_limit::{max_cooldown_ms, Cooldown, ErrorType, RateLimitState};
use crate::stats::StatsTracker;
use crate::text::{
    concat3, contains_str, join, lemma_has_iff_views_contains, seq_has, spec_join, to_owned_string, views,
};
use crate::language_profile::LanguageProfile;
use crate::selector::{spec_skip_reason, SelectRequest};

verus! {

/// One attempt of a fallback chain.
#[derive(Debug, Clone)]
pub struct AttemptRecord {
    pub provider: String,
    pub success: bool,
    pub error: Option<String>,
    pub duration_ms: u64,
}

/// One priority tier: the indices of its candidates in the pool, in pool
/// order, and the priority they share (none for the single implicit tier).
#[derive(Debug, Clone)]
pub struct Tier {
    pub priority: Option<i64>,
    pub members: Vec<usize>,
}

/// Whether some candidate carries a group member priority.
pub open spec fn uses_group(pool: Seq<Candidate>) -> bool {
    exists|i: int| 0 <= i < pool.len() && (#[trigger] pool[i]).member_priority is Some
}

/// The indices below `k` of candidates with effective priority `p`.
pub open spec fn indices_with(pool: Seq<Candidate>, p: i64, k: int) -> Seq<usize>
    decreases k,
{
    if k <= 0 {
        Seq::empty()
    } else if pool[k - 1].spec_effective_priority() == p {
        indices_with(pool, p, k - 1).push((k - 1) as usize)
    } else {
        indices_with(pool, p, k - 1)
    }
}

/// The indices below `k`.
pub open spec fn all_indices(k: int) -> Seq<usize>
    decreases k,
{
    if k <= 0 {
        Seq::empty()
    } else {
        all_indices(k - 1).push((k - 1) as usize)
    }
}

/// What the tiers of a pool are: with group priorities, one tier per
/// distinct effective priority, lowest first, each holding the candidates
/// of that priority in pool order; without, one tier holding the pool.
pub open spec fn spec_tiers_of(pool: Seq<Candidate>, tiers: Seq<Tier>) -> bool {
    if uses_group(pool) {
        &&& forall|j: int| 0 <= j < tiers.len() ==> (#[trigger] tiers[j]).priority is Some
        &&& forall|j: int| 0 <= j < tiers.len() ==> (#[trigger] tiers[j]).members@
            == indices_with(pool, tiers[j].priority->0, pool.len() as int)
        &&& forall|a: int, b: int| 0 <= a < b < tiers.len() ==> tiers[a].priority->0 < tiers[b].priority->0
        &&& forall|i: int| 0 <= i < pool.len() ==> exists|j: int| 0 <= j < tiers.len()
            && #[trigger] tiers[j].priority == Some((#[trigger] pool[i]).spec_effective_priority())
        &&& forall|j: int| 0 <= j < tiers.len() ==> (#[trigger] tiers[j]).members@.len() > 0
    } else {
        &&& tiers.len() == 1
        &&& tiers[0].priority is None
        &&& tiers[0].members@ == all_indices(pool.len() as int)
    }
}

fn uses_group_exec(pool: &Vec<Candidate>) -> (res: bool)
    ensures
        res == uses_group(pool@),
{
    let mut i: usize = 0;
    while i < pool.len()
        invariant
            i <= pool@.len(),
            forall|j: int| 0 <= j < i ==> pool@[j].member_priority is None,
        decreases pool.len() - i,
    {
        if pool[i].member_priority.is_some() {
            return true;
        }
        i = i + 1;
    }
    false
}

proof fn lemma_indices_with(pool: Seq<Candidate>, p: i64, k: int)
    requires
        0 <= k <= pool.len(),
        pool.len() <= usize::MAX,
    ensures
        forall|a: int| 0 <= a < indices_with(pool, p, k).len() ==> {
            let x = #[trigger] indices_with(pool, p, k)[a];
            0 <= x < k && pool[x as int].spec_effective_priority() == p
        },
        (exists|i: int| 0 <= i < k && #[trigger] pool[i].spec_effective_priority() == p)
            ==> indices_with(pool, p, k).len() > 0,
    decreases k,
{
    if k > 0 {
        lemma_indices_with(pool, p, k - 1);
        let prev = indices_with(pool, p, k - 1);
        let cur = indices_with(pool, p, k);
        assert forall|a: int| 0 <= a < cur.len() implies {
            let x = #[trigger] cur[a];
            0 <= x < k && pool[x as int].spec_effective_priority() == p
        } by {
            if a < prev.len() {
                assert(cur[a] == prev[a]);
            } else {
                assert(cur[a] == (k - 1) as usize);
            }
        }
        if exists|i: int| 0 <= i < k && #[trigger] pool[i].spec_effective_priority() == p {
            let i = choose|i: int| 0 <= i < k && #[trigger] pool[i].spec_effective_priority() == p;
            if i < k - 1 {
                assert(exists|i: int| 0 <= i < k - 1 && #[trigger] pool[i].spec_effective_priority() == p);
            }
        }
    }
}

/// The indices of the candidates whose effective priority is `p`.
fn members_with(pool: &Vec<Candidate>, p: i64) -> (res: Vec<usize>)
    ensures
        res@ == indices_with(pool@, p, pool@.len() as int),
{
    let mut out: Vec<usize> = Vec::new();
    let mut i: usize = 0;
    while i < pool.len()
        invariant
            i <= pool@.len(),
            out@ == indices_with(pool@, p, i as int),
        decreases pool.len() - i,
    {
        if pool[i].effective_priority() == p {
            out.push(i);
        }
        i = i + 1;
    }
    out
}

/// The smallest effective priority above `prev` (any, when `prev` is none).
fn next_priority(pool: &Vec<Candidate>, prev: Option<i64>) -> (res: Option<i64>)
    ensures
        match res {
            Some(p) => (prev matches Some(q) ==> p > q)
                && (exists|i: int| 0 <= i < pool@.len() && #[trigger] pool@[i].spec_effective_priority() == p)
                && forall|i: int| 0 <= i < pool@.len() && (prev matches Some(q) ==> pool@[i].spec_effective_priority() > q)
                    ==> p <= #[trigger] pool@[i].spec_effective_priority(),
            None => (prev is None ==> pool@.len() == 0)
                && (prev matches Some(q) ==> forall|i: int| 0 <= i < pool@.len() ==> #[trigger] pool@[i].spec_effective_priority() <= q),
        },
{
    let mut best: Option<i64> = None;
    let mut i: usize = 0;
    while i < pool.len()
        invariant
            i <= pool@.len(),
            match best {
                Some(p) => (prev matches Some(q) ==> p > q)
                    && (exists|k: int| 0 <= k < i && #[trigger] pool@[k].spec_effective_priority() == p)
                    && forall|k: int| 0 <= k < i && (prev matches Some(q) ==> pool@[k].spec_effective_priority() > q)
                        ==> p <= #[trigger] pool@[k].spec_effective_priority(),
                None => (prev is None ==> i == 0)
                    && (prev matches Some(q) ==> forall|k: int| 0 <= k < i ==> #[trigger] pool@[k].spec_effective_priority() <= q),
            },
        decreases pool.len() - i,
    {
        let e = pool[i].effective_priority();
        let above = match prev {
            Some(q) => e > q,
            None => true,
        };
        assert(pool@[i as int].spec_effective_priority() == e);
        if above {
            match best {
                Some(b) => {
                    if e < b {
                        best = Some(e);
                    }
                },
                None => {
                    best = Some(e);
                },
            }
        }
        i = i + 1;
    }
    best
}

/// Splits a pool into priority tiers. With group member priorities, each
/// distinct effective priority forms a tier, lowest first, and every tier is
/// exhausted before the next is tried; without, the whole pool is one tier.
pub fn build_tiers(pool: &Vec<Candidate>) -> (res: Vec<Tier>)
    ensures
        spec_tiers_of(pool@, res@),
{
    if !uses_group_exec(pool) {
        let mut all: Vec<usize> = Vec::new();
        let mut i: usize = 0;
        while i < pool.len()
            invariant
                i <= pool@.len(),
                all@ == all_indices(i as int),
            decreases pool.len() - i,
        {
            all.push(i);
            i = i + 1;
        }
        let mut tiers: Vec<Tier> = Vec::new();
        tiers.push(Tier { priority: None, members: all });
        return tiers;
    }
    let mut tiers: Vec<Tier> = Vec::new();
    let mut prev: Option<i64> = None;
    loop
        invariant
            uses_group(pool@),
            forall|j: int| 0 <= j < tiers@.len() ==> (#[trigger] tiers@[j]).priority is Some,
            forall|j: int| 0 <= j < tiers@.len() ==> (#[trigger] tiers@[j]).members@
                == indices_with(pool@, tiers@[j].priority->0, pool@.len() as int),
            forall|a: int, b: int| 0 <= a < b < tiers@.len() ==> tiers@[a].priority->0 < tiers@[b].priority->0,
            forall|j: int| 0 <= j < tiers@.len() ==> (#[trigger] tiers@[j]).members@.len() > 0,
            prev is None <==> tiers@.len() == 0,
            prev matches Some(q) ==> tiers@[tiers@.len() - 1].priority == Some(q),
            forall|i: int| 0 <= i < pool@.len() && (prev matches Some(q) && #[trigger] pool@[i].spec_effective_priority() <= q)
                ==> exists|j: int| 0 <= j < tiers@.len()
                    && #[trigger] tiers@[j].priority == Some(pool@[i].spec_effective_priority()),
        ensures
            spec_tiers_of(pool@, tiers@),
        decreases (if prev is None { 0x1_0000_0000_0000_0000int } else { i64::MAX - prev->0 }),
    {
        match next_priority(pool, prev) {
            None => {
                assert(prev is Some);
                break;
            },
            Some(p) => {
                let members = members_with(pool, p);
                let _n = pool.len();
                proof {
                    lemma_indices_with(pool@, p, pool@.len() as int);
                }
                let ghost old_tiers = tiers@;
                tiers.push(Tier { priority: Some(p), members });
                proof {
                    assert forall|i: int| 0 <= i < pool@.len() && #[trigger] pool@[i].spec_effective_priority() <= p
                        implies exists|j: int| 0 <= j < tiers@.len()
                            && #[trigger] tiers@[j].priority == Some(pool@[i].spec_effective_priority()) by {
                        let e = pool@[i].spec_effective_priority();
                        if e == p {
                            assert(tiers@[tiers@.len() - 1].priority == Some(p));
                            assert(tiers@[tiers@.len() - 1].priority == Some(e));
                        } else {
                            let j = choose|j: int| 0 <= j < old_tiers.len()
                                && #[trigger] old_tiers[j].priority == Some(pool@[i].spec_effective_priority());
                            assert(tiers@[j] == old_tiers[j]);
                        }
                    }
                }
                prev = Some(p);
            },
        }
    }
    tiers
}

// ---------------------------------------------------------------------------
// The fallback chain
// ---------------------------------------------------------------------------

/// The state of one search's fallback chain: which tier is being tried,
/// which keys have failed, and what each attempt did.
pub struct SearchRun {
    pub tier_idx: usize,
    pub n_tiers: usize,
    pub max_fallbacks: usize,
    /// Key ids that failed and must not be selected again.
    pub excluded: Vec<String>,
    /// `slug:outcome` for every attempt, in order.
    pub chain_parts: Vec<String>,
    pub attempts: Vec<AttemptRecord>,
}

/// `slug:code`, as an entry of a fallback chain.
pub open spec fn chain_entry(slug: Seq<char>, code: Seq<char>) -> Seq<char> {
    slug + seq![':'] + code
}

impl SearchRun {
    /// The chain is well formed: one chain entry per attempt, and never more
    /// attempts than one plus the fallbacks allowed.
    pub open spec fn wf(&self) -> bool {
        &&& self.chain_parts@.len() == self.attempts@.len()
        &&& self.attempts@.len() <= self.max_fallbacks + 1
        &&& self.tier_idx <= self.n_tiers
    }

    /// A fresh chain over `n_tiers` tiers allowing `max_fallbacks` fallbacks.
    pub fn new(n_tiers: usize, max_fallbacks: usize) -> (res: SearchRun)
        ensures
            res.wf(),
            res.tier_idx == 0,
            res.n_tiers == n_tiers,
            res.max_fallbacks == max_fallbacks,
            res.excluded@.len() == 0,
            res.attempts@.len() == 0,
    {
        SearchRun {
            tier_idx: 0,
            n_tiers,
            max_fallbacks,
            excluded: Vec::new(),
            chain_parts: Vec::new(),
            attempts: Vec::new(),
        }
    }

    pub open spec fn spec_current_tier(&self) -> Option<usize> {
        if self.attempts@.len() > self.max_fallbacks || self.tier_idx >= self.n_tiers {
            None
        } else {
            Some(self.tier_idx)
        }
    }

    /// The tier to select from next, or none when the chain must stop: the
    /// fallbacks are used up or every tier is exhausted.
    pub fn current_tier(&self) -> (res: Option<usize>)
        ensures
            res == self.spec_current_tier(),
    {
        if self.attempts.len() > self.max_fallbacks || self.tier_idx >= self.n_tiers {
            None
        } else {
            Some(self.tier_idx)
        }
    }

    /// The current tier has no selectable candidate left: move on.
    pub fn tier_exhausted(&mut self)
        requires
            old(self).wf(),
            old(self).spec_current_tier() is Some,
        ensures
            final(self).wf(),
            final(self).tier_idx == old(self).tier_idx + 1,
            final(self).n_tiers == old(self).n_tiers,
            final(self).max_fallbacks == old(self).max_fallbacks,
            final(self).excluded == old(self).excluded,
            final(self).chain_parts == old(self).chain_parts,
            final(self).attempts == old(self).attempts,
    {
        self.tier_idx = self.tier_idx + 1;
    }

    /// Records a failed attempt of `candidate`: appends `slug:kind` to the
    /// chain and a failed attempt, puts the key on cooldown for the error's
    /// kind at `now`, counts an error search for the provider, and excludes
    /// the key from the rest of the chain. Returns the error's kind.
    pub fn record_failure(
        &mut self,
        candidate: &Candidate,
        err: &ProviderError,
        duration_ms: u64,
        rate_limit: &mut RateLimitState,
        stats: &mut StatsTracker,
        now: u64,
    ) -> (res: ErrorType)
        requires
            old(self).wf(),
            old(self).spec_current_tier() is Some,
            now <= u64::MAX - max_cooldown_ms(),
        ensures
            final(self).wf(),
            res == err.spec_error_type(),
            final(self).tier_idx == old(self).tier_idx,
            final(self).n_tiers == old(self).n_tiers,
            final(self).max_fallbacks == old(self).max_fallbacks,
            views(final(self).excluded@) == views(old(self).excluded@).push(candidate.api_key.id@),
            views(final(self).chain_parts@) == views(old(self).chain_parts@).push(
                chain_entry(candidate.provider.slug@, res.spec_name()),
            ),
            final(self).attempts@.len() == old(self).attempts@.len() + 1,
            ({
                let a = final(self).attempts@.last();
                &&& a.provider@ == candidate.provider.slug@
                &&& !a.success
                &&& a.error matches Some(m) && m@ == res.spec_name()
                &&& a.duration_ms == duration_ms
            }),
            forall|i: int| 0 <= i < old(self).attempts@.len() ==> final(self).attempts@[i] == old(self).attempts@[i],
            final(rate_limit)@ == old(rate_limit)@.insert(
                candidate.api_key.id@,
                Cooldown {
                    unblocked_at_ms: (now + res.spec_cooldown_secs() * 1000) as u64,
                    error_type: res,
                },
            ),
            exists|e: crate::stats::SearchEvent| #![trigger old(stats)@.push(e)]
                e.at_ms == now && e.provider@ == candidate.provider.slug@ && e.is_error
                && e.duration_ms == 0
                && final(stats)@ == crate::stats::prune_events(old(stats)@.push(e), if now >= crate::stats::retention_ms() {
                    (now - crate::stats::retention_ms()) as u64
                } else {
                    0
                }),
    {
        let et = err.error_type();
        let code = et.as_str();
        let slug = candidate.provider.slug.as_str();
        let ghost old_chain = self.chain_parts@;
        let ghost old_excl = self.excluded@;
        self.chain_parts.push(concat3(slug, ":", code));
        proof {
            reveal_strlit(":");
            assert(":"@ =~= seq![':']);
            assert(self.chain_parts@.last()@ == chain_entry(slug@, et.spec_name()));
            assert(self.chain_parts@ == old_chain.push(self.chain_parts@.last()));
            assert(views(self.chain_parts@) =~= views(old_chain).push(chain_entry(slug@, et.spec_name())));
        }
        rate_limit.report_error(candidate.api_key.id.as_str(), et, now);
        stats.record_search(slug, true, 0, now);
        self.attempts.push(AttemptRecord {
            provider: to_owned_string(slug),
            success: false,
            error: Some(to_owned_string(code)),
            duration_ms,
        });
        self.excluded.push(candidate.api_key.id.clone());
        proof {
            assert(views(self.excluded@) =~= views(old_excl).push(candidate.api_key.id@));
        }
        et
    }

    /// Records the successful attempt that ends the chain: appends
    /// `slug:ok`, where the slug is the one the provider reported or else the
    /// candidate's, and a successful attempt, and counts a search of
    /// `total_ms` for that slug. Returns the slug.
    pub fn record_success(
        &mut self,
        candidate: &Candidate,
        effective_slug: Option<String>,
        attempt_ms: u64,
        total_ms: u64,
        stats: &mut StatsTracker,
        now: u64,
    ) -> (res: String)
        requires
            old(self).wf(),
            old(self).spec_current_tier() is Some,
        ensures
            final(self).wf(),
            res@ == (match effective_slug { Some(s) => s@, None => candidate.provider.slug@ }),
            final(self).excluded == old(self).excluded,
            final(self).tier_idx == old(self).tier_idx,
            final(self).n_tiers == old(self).n_tiers,
            final(self).max_fallbacks == old(self).max_fallbacks,
            views(final(self).chain_parts@) == views(old(self).chain_parts@).push(chain_entry(res@, "ok"@)),
            final(self).attempts@.len() == old(self).attempts@.len() + 1,
            ({
                let a = final(self).attempts@.last();
                &&& a.provider@ == res@
                &&& a.success
                &&& a.error is None
                &&& a.duration_ms == attempt_ms
            }),
            forall|i: int| 0 <= i < old(self).attempts@.len() ==> final(self).attempts@[i] == old(self).attempts@[i],
            exists|e: crate::stats::SearchEvent| #![trigger old(stats)@.push(e)]
                e.at_ms == now && e.provider@ == res@ && !e.is_error
                && e.duration_ms == total_ms
                && final(stats)@ == crate::stats::prune_events(old(stats)@.push(e), if now >= crate::stats::retention_ms() {
                    (now - crate::stats::retention_ms()) as u64
                } else {
                    0
                }),
    {
        let slug = match effective_slug {
            Some(s) => s,
            None => candidate.provider.slug.clone(),
        };
        let ghost old_chain = self.chain_parts@;
        let ok = "ok";
        self.chain_parts.push(concat3(slug.as_str(), ":", ok));
        proof {
            reveal_strlit(":");
            assert(":"@ =~= seq![':']);
            assert(self.chain_parts@.last()@ == chain_entry(slug@, "ok"@));
            assert(self.chain_parts@ == old_chain.push(self.chain_parts@.last()));
            assert(views(self.chain_parts@) =~= views(old_chain).push(chain_entry(slug@, "ok"@)));
        }
        self.attempts.push(AttemptRecord {
            provider: slug.clone(),
            success: true,
            error: None,
            duration_ms: attempt_ms,
        });
        stats.record_search(slug.as_str(), false, total_ms, now);
        slug
    }

    /// The chain so far, entries joined by commas.
    pub fn fallback_chain(&self) -> (res: String)
        ensures
            res@ == spec_join(views(self.chain_parts@), ","@),
    {
        join(&self.chain_parts, ",")
    }
}


// ---------------------------------------------------------------------------
// Laws
// ---------------------------------------------------------------------------

proof fn lemma_indices_with_contains(pool: Seq<Candidate>, p: i64, k: int, i: int)
    requires
        0 <= i < k <= pool.len(),
        pool.len() <= usize::MAX,
        pool[i].spec_effective_priority() == p,
    ensures
        indices_with(pool, p, k).contains(i as usize),
    decreases k,
{
    if i < k - 1 {
        lemma_indices_with_contains(pool, p, k - 1, i);
        let prev = indices_with(pool, p, k - 1);
        let a = choose|a: int| 0 <= a < prev.len() && prev[a] == i as usize;
        assert(indices_with(pool, p, k)[a] == i as usize);
    } else {
        let cur = indices_with(pool, p, k);
        assert(cur[cur.len() - 1] == i as usize);
    }
}

proof fn lemma_all_indices(k: int, i: int)
    requires
        0 <= i < k <= usize::MAX,
    ensures
        all_indices(k).len() == k,
        all_indices(k)[i] == i as usize,
    decreases k,
{
    lemma_all_indices_len(k - 1);
    if i < k - 1 {
        lemma_all_indices(k - 1, i);
    }
}

proof fn lemma_all_indices_len(k: int)
    requires
        0 <= k,
    ensures
        all_indices(k).len() == k,
    decreases k,
{
    if k > 0 {
        lemma_all_indices_len(k - 1);
    }
}

/// Tiers split the pool: every candidate stands in exactly one tier, and
/// every tier member is a candidate of the pool. With group priorities, a
/// candidate's tier is the one of its effective priority, and tiers with
/// lower priorities come first.
pub proof fn law_tiers_partition_pool(pool: Seq<Candidate>, tiers: Seq<Tier>, i: int)
    requires
        spec_tiers_of(pool, tiers),
        pool.len() <= usize::MAX,
        0 <= i < pool.len(),
    ensures
        exists|j: int| 0 <= j < tiers.len() && (#[trigger] tiers[j]).members@.contains(i as usize),
        forall|j1: int, j2: int| 0 <= j1 < tiers.len() && 0 <= j2 < tiers.len()
            && tiers[j1].members@.contains(i as usize) && tiers[j2].members@.contains(i as usize) ==> j1 == j2,
        forall|j: int, a: int| 0 <= j < tiers.len() && 0 <= a < tiers[j].members@.len()
            ==> #[trigger] tiers[j].members@[a] < pool.len(),
{
    if uses_group(pool) {
        let e = pool[i].spec_effective_priority();
        let j = choose|j: int| 0 <= j < tiers.len() && #[trigger] tiers[j].priority == Some(pool[i].spec_effective_priority());
        lemma_indices_with_contains(pool, e, pool.len() as int, i);
        assert(tiers[j].members@.contains(i as usize));
        assert forall|j: int, a: int| 0 <= j < tiers.len() && 0 <= a < tiers[j].members@.len()
            implies #[trigger] tiers[j].members@[a] < pool.len() by {
            lemma_indices_with(pool, tiers[j].priority->0, pool.len() as int);
            assert(tiers[j].members@ == indices_with(pool, tiers[j].priority->0, pool.len() as int));
            let x = tiers[j].members@[a];
            assert(indices_with(pool, tiers[j].priority->0, pool.len() as int)[a] == x);
        }
        assert forall|j1: int, j2: int| 0 <= j1 < tiers.len() && 0 <= j2 < tiers.len()
            && tiers[j1].members@.contains(i as usize) && tiers[j2].members@.contains(i as usize) implies j1 == j2 by {
            lemma_indices_with(pool, tiers[j1].priority->0, pool.len() as int);
            lemma_indices_with(pool, tiers[j2].priority->0, pool.len() as int);
            let a1 = choose|a: int| 0 <= a < tiers[j1].members@.len() && tiers[j1].members@[a] == i as usize;
            let a2 = choose|a: int| 0 <= a < tiers[j2].members@.len() && tiers[j2].members@[a] == i as usize;
            assert(indices_with(pool, tiers[j1].priority->0, pool.len() as int)[a1] == i as usize);
            assert(indices_with(pool, tiers[j2].priority->0, pool.len() as int)[a2] == i as usize);
            if j1 < j2 {
                assert(tiers[j1].priority->0 < tiers[j2].priority->0);
            } else if j2 < j1 {
                assert(tiers[j2].priority->0 < tiers[j1].priority->0);
            }
        }
    } else {
        lemma_all_indices(pool.len() as int, i);
        assert(tiers[0].members@[i] == i as usize);
        assert forall|j: int, a: int| 0 <= j < tiers.len() && 0 <= a < tiers[j].members@.len()
            implies #[trigger] tiers[j].members@[a] < pool.len() by {
            lemma_all_indices(pool.len() as int, a);
        }
    }
}

/// However a chain is driven, it never makes more attempts than one plus
/// the fallbacks it allows, and stops asking for a tier once it has made
/// that many.
pub proof fn law_chain_attempts_bounded(run: SearchRun)
    requires
        run.wf(),
    ensures
        run.attempts@.len() <= run.max_fallbacks + 1,
        run.attempts@.len() == run.max_fallbacks + 1 ==> run.spec_current_tier() is None,
{
}

/// A key whose attempt failed is not tried again in the same search: once
/// the failure is recorded, the screening skips every candidate that uses
/// that key, whatever the request, profile, cooldowns or time.
pub proof fn law_failed_key_is_skipped(
    before: SearchRun,
    after: SearchRun,
    failed: Candidate,
    c: Candidate,
    req: SelectRequest,
    profile: Option<LanguageProfile>,
    cooldowns: Map<Seq<char>, Cooldown>,
    now: u64,
)
    requires
        views(after.excluded@) == views(before.excluded@).push(failed.api_key.id@),
        c.api_key.id@ == failed.api_key.id@,
    ensures
        spec_skip_reason(c, req, after.excluded@, profile, cooldowns, now) is Some,
{
    let v = views(after.excluded@);
    assert(v[v.len() - 1] == c.api_key.id@);
    assert(v.contains(c.api_key.id@));
    lemma_has_iff_views_contains(after.excluded@, c.api_key.id@);
}

// ---------------------------------------------------------------------------
// Attempt outcomes that never reach a provider
// ---------------------------------------------------------------------------

/// The answer to a search whose candidate pool is empty: a 503 that says
/// whether it was the enrichment the request asked for that left no
/// provider able to answer.
pub fn empty_pool_error(wants_enrichment: bool) -> (res: AppError)
    ensures
        plain_error(
            res,
            503,
            if wants_enrichment {
                "No enrichment-capable provider candidates available"@
            } else {
                "No provider candidates available"@
            },
            "no_providers_available"@,
        ),
{
    if wants_enrichment {
        AppError::service_unavailable(to_owned_string("No enrichment-capable provider candidates available"))
    } else {
        AppError::service_unavailable(to_owned_string("No provider candidates available"))
    }
}

/// The answer to a search whose every candidate failed or was skipped.
pub fn exhausted_error() -> (res: AppError)
    ensures
        plain_error(res, 503, "All provider candidates exhausted"@, "no_providers_available"@),
{
    AppError::service_unavailable(to_owned_string("All provider candidates exhausted"))
}

/// The error of an attempt whose provider has no adapter.
pub fn no_adapter_error(slug: &str) -> (res: ProviderError)
    ensures
        res matches ProviderError::Http { status, message } && status == 0
            && message@ == "No adapter for provider '"@ + slug@ + "'"@,
{
    ProviderError::Http { status: 0, message: concat3("No adapter for provider '", slug, "'") }
}

/// The error of an attempt whose key reference could not be resolved.
pub fn unresolved_key_error(key_ref: &str) -> (res: ProviderError)
    ensures
        res matches ProviderError::Http { status, message } && status == 401
            && message@ == "key_ref '"@ + key_ref@ + "' could not be resolved"@,
{
    ProviderError::Http { status: 401, message: concat3("key_ref '", key_ref, "' could not be resolved") }
}

/// Whether a provider can deliver every enrichment asked for.
pub fn enrichment_capable(
    wants_extra_snippets: bool,
    wants_full_content: bool,
    supports_extra_snippets: bool,
    supports_full_content: bool,
) -> (res: bool)
    ensures
        res == ((!wants_extra_snippets || supports_extra_snippets) && (!wants_full_content || supports_full_content)),
{
    (!wants_extra_snippets || supports_extra_snippets) && (!wants_full_content || supports_full_content)
}

/// The candidates whose provider slug is among `slugs`, in pool order.
pub open spec fn with_slugs(pool: Seq<Candidate>, slugs: Seq<String>) -> Seq<Candidate> {
    pool.filter(|c: Candidate| seq_has(slugs, c.provider.slug@))
}

/// Keeps the candidates whose provider is among `slugs` (the providers that
/// can serve the request), in pool order.
pub fn keep_providers(pool: Vec<Candidate>, slugs: &Vec<String>) -> (res: Vec<Candidate>)
    ensures
        res@ == with_slugs(pool@, slugs@),
{
    let ghost all = pool@;
    let mut rest = pool;
    let mut out: Vec<Candidate> = Vec::new();
    let ghost mut i: int = 0;
    proof {
        reveal(Seq::filter);
        assert(rest@ =~= all.skip(0));
        assert(all.take(0).filter(|c: Candidate| seq_has(slugs@, c.provider.slug@)) =~= Seq::<Candidate>::empty());
    }
    while rest.len() > 0
        invariant
            0 <= i <= all.len(),
            rest@ == all.skip(i),
            out@ == all.take(i).filter(|c: Candidate| seq_has(slugs@, c.provider.slug@)),
        decreases rest.len(),
    {
        let c = rest.remove(0);
        proof {
            reveal(Seq::filter);
            assert(c == all[i]);
            assert(rest@ =~= all.skip(i + 1));
            assert(all.take(i + 1).drop_last() =~= all.take(i));
        }
        if contains_str(slugs, c.provider.slug.as_str()) {
            out.push(c);
        }
        proof { i = i + 1; }
    }
    proof {
        assert(all.take(i) =~= all);
    }
    out
}

/// The log row of a search answered by a provider.
pub fn success_log(
    id: String,
    query_hash: String,
    group_slug: Option<String>,
    language: Option<String>,
    country: Option<String>,
    provider_slug: String,
    api_key_id: String,
    n_requested: i64,
    n_returned: i64,
    duration_ms: i64,
    fallback_chain: String,
) -> (res: SearchLog)
    ensures
        res.id == id,
        res.query_hash == query_hash,
        res.group_slug == group_slug,
        res.language == language,
        res.country == country,
        res.provider_slug == Some(provider_slug),
        res.api_key_id == Some(api_key_id),
        res.n_requested == Some(n_requested),
        res.n_returned == Some(n_returned),
        res.duration_ms == Some(duration_ms),
        !res.cache_hit,
        res.success == Some(true),
        res.error_type is None,
        res.fallback_chain == Some(fallback_chain),
        res.requested_at@.len() == 0,
{
    SearchLog {
        id,
        query_hash,
        group_slug,
        language,
        country,
        provider_slug: Some(provider_slug),
        api_key_id: Some(api_key_id),
        n_requested: Some(n_requested),
        n_returned: Some(n_returned),
        duration_ms: Some(duration_ms),
        cache_hit: false,
        success: Some(true),
        error_type: None,
        fallback_chain: Some(fallback_chain),
        requested_at: String::new(),
    }
}

} // verus!
