//! The hard filters of provider selection: which candidates of a pool may be
//! scored for a request, and why the others are skipped.

use vstd::prelude::*;
use crate::language_profile::{
    opt_slice_view, or_wildcard, spec_find, LanguageProfile, ProfileMatcher,
};
use crate::models::{opt_str_view, Candidate};
use crate::rate_limit::{spec_limited, spec_remaining_ms, Cooldown, RateLimitState, UsageTracker};
use crate::text::{concat3, contains_str, seq_has, to_owned_string, views};

verus! {

/// What a selection is asked for.
#[derive(Debug, Clone)]
pub struct SelectRequest {
    pub language: Option<String>,
    pub country: Option<String>,
    pub exclude_key_ids: Vec<String>,
    pub exclude_provider_slugs: Vec<String>,
}

impl SelectRequest {
    /// A request with no locale and no exclusions.
    pub fn new() -> (res: SelectRequest)
        ensures
            res.language is None,
            res.country is None,
            res.exclude_key_ids@.len() == 0,
            res.exclude_provider_slugs@.len() == 0,
    {
        SelectRequest {
            language: None,
            country: None,
            exclude_key_ids: Vec::new(),
            exclude_provider_slugs: Vec::new(),
        }
    }
}

/// Why a candidate was not scored.
#[derive(Debug, Clone, Copy, PartialEq, Eq, Structural)]
pub enum SkipReason {
    ProviderInactive,
    KeyInactive,
    RateLimitCooldown,
    ExcludedByRequest,
    ExcludedByProfile,
}

impl SkipReason {
    pub open spec fn spec_code(self) -> Seq<char> {
        match self {
            SkipReason::ProviderInactive => "provider_inactive"@,
            SkipReason::KeyInactive => "key_inactive"@,
            SkipReason::RateLimitCooldown => "rpm_cooldown"@,
            SkipReason::ExcludedByRequest => "excluded_by_request"@,
            SkipReason::ExcludedByProfile => "profile_excluded"@,
        }
    }

    /// The reason code reported in debug decisions.
    pub fn code(self) -> (res: &'static str)
        ensures
            res@ == self.spec_code(),
    {
        match self {
            SkipReason::ProviderInactive => "provider_inactive",
            SkipReason::KeyInactive => "key_inactive",
            SkipReason::RateLimitCooldown => "rpm_cooldown",
            SkipReason::ExcludedByRequest => "excluded_by_request",
            SkipReason::ExcludedByProfile => "profile_excluded",
        }
    }

    /// The detail reported with a skip: for an excluded provider, which
    /// language excluded it (`*` when the request named none); nothing for
    /// the other reasons.
    pub fn detail(self, language: Option<&str>) -> (res: Option<String>)
        ensures
            self is ExcludedByProfile ==> (res matches Some(d) && d@ == "language="@ + or_wildcard(
                opt_slice_view(language),
            ) + " excluded by profile"@),
            !(self is ExcludedByProfile) ==> res is None,
    {
        match self {
            SkipReason::ExcludedByProfile => {
                let lang = match language {
                    Some(l) => l,
                    None => "*",
                };
                proof {
                    reveal_strlit("*");
                    assert(lang@ == or_wildcard(opt_slice_view(language)));
                }
                Some(concat3("language=", lang, " excluded by profile"))
            },
            _ => None,
        }
    }
}

/// A skipped candidate: its index in the pool, why, and the cooldown left
/// when it is on cooldown.
#[derive(Debug, Clone, Copy, PartialEq, Eq, Structural)]
pub struct Skip {
    pub index: usize,
    pub reason: SkipReason,
    pub cooldown_remaining_ms: Option<u64>,
}

/// The outcome of the hard filters over a pool: indices of the candidates
/// that may be scored, and the skipped ones, both in pool order.
#[derive(Debug, Clone)]
pub struct Screening {
    pub eligible: Vec<usize>,
    pub skipped: Vec<Skip>,
}

/// Provider slugs excluded by the request's profile or by the request.
pub open spec fn slug_excluded(profile: Option<LanguageProfile>, req: SelectRequest, slug: Seq<char>) -> bool {
    (match profile {
        Some(p) => seq_has(p.exclude@, slug),
        None => false,
    }) || seq_has(req.exclude_provider_slugs@, slug)
}

/// The first hard filter a candidate fails, in the order they are checked.
pub open spec fn spec_skip_reason(
    c: Candidate,
    req: SelectRequest,
    extra_excludes: Seq<String>,
    profile: Option<LanguageProfile>,
    cooldowns: Map<Seq<char>, Cooldown>,
    now: u64,
) -> Option<SkipReason> {
    if !c.provider.is_active {
        Some(SkipReason::ProviderInactive)
    } else if !c.api_key.is_active {
        Some(SkipReason::KeyInactive)
    } else if seq_has(extra_excludes, c.api_key.id@) || seq_has(req.exclude_key_ids@, c.api_key.id@) {
        Some(SkipReason::ExcludedByRequest)
    } else if spec_limited(cooldowns, c.api_key.id@, now) {
        Some(SkipReason::RateLimitCooldown)
    } else if slug_excluded(profile, req, c.provider.slug@) {
        Some(SkipReason::ExcludedByProfile)
    } else {
        None
    }
}

/// The profile a request gets from a list of profiles.
pub open spec fn request_profile(ps: Seq<LanguageProfile>, req: SelectRequest) -> Option<LanguageProfile> {
    match spec_find(ps, or_wildcard(opt_str_view(req.language)), or_wildcard(opt_str_view(req.country))) {
        Some(i) => Some(ps[i]),
        None => None,
    }
}

/// The indices, among the first `k` candidates, that pass every filter.
pub open spec fn eligible_upto(
    pool: Seq<Candidate>,
    k: int,
    req: SelectRequest,
    extra: Seq<String>,
    profile: Option<LanguageProfile>,
    cooldowns: Map<Seq<char>, Cooldown>,
    now: u64,
) -> Seq<usize>
    decreases k,
{
    if k <= 0 {
        Seq::empty()
    } else {
        let before = eligible_upto(pool, k - 1, req, extra, profile, cooldowns, now);
        match spec_skip_reason(pool[k - 1], req, extra, profile, cooldowns, now) {
            None => before.push((k - 1) as usize),
            Some(_) => before,
        }
    }
}

/// The skips among the first `k` candidates.
pub open spec fn skipped_upto(
    pool: Seq<Candidate>,
    k: int,
    req: SelectRequest,
    extra: Seq<String>,
    profile: Option<LanguageProfile>,
    cooldowns: Map<Seq<char>, Cooldown>,
    now: u64,
) -> Seq<Skip>
    decreases k,
{
    if k <= 0 {
        Seq::empty()
    } else {
        let before = skipped_upto(pool, k - 1, req, extra, profile, cooldowns, now);
        match spec_skip_reason(pool[k - 1], req, extra, profile, cooldowns, now) {
            None => before,
            Some(r) => before.push(Skip {
                index: (k - 1) as usize,
                reason: r,
                cooldown_remaining_ms: if r == SkipReason::RateLimitCooldown {
                    Some(spec_remaining_ms(cooldowns, pool[k - 1].api_key.id@, now))
                } else {
                    None
                },
            }),
        }
    }
}

/// Chooses the provider key to try for a request.
pub struct Selector {
    pub rate_limit: RateLimitState,
    pub usage: UsageTracker,
    pub profiles: ProfileMatcher,
}

impl Selector {
    pub fn new(rate_limit: RateLimitState, usage: UsageTracker, profiles: ProfileMatcher) -> (res: Selector)
        ensures
            res.rate_limit == rate_limit,
            res.usage == usage,
            res.profiles == profiles,
    {
        Selector { rate_limit, usage, profiles }
    }

    /// The first filter that `c` fails, if any.
    fn skip_reason(
        &self,
        c: &Candidate,
        req: &SelectRequest,
        extra_excludes: &Vec<String>,
        profile: Option<&LanguageProfile>,
        now_ms: u64,
    ) -> (res: Option<SkipReason>)
        ensures
            res == spec_skip_reason(
                *c,
                *req,
                extra_excludes@,
                match profile { Some(p) => Some(*p), None => None },
                self.rate_limit@,
                now_ms,
            ),
    {
        if !c.provider.is_active {
            return Some(SkipReason::ProviderInactive);
        }
        if !c.api_key.is_active {
            return Some(SkipReason::KeyInactive);
        }
        if contains_str(extra_excludes, c.api_key.id.as_str())
            || contains_str(&req.exclude_key_ids, c.api_key.id.as_str()) {
            return Some(SkipReason::ExcludedByRequest);
        }
        if self.rate_limit.is_limited(c.api_key.id.as_str(), now_ms) {
            return Some(SkipReason::RateLimitCooldown);
        }
        let by_profile = match profile {
            Some(p) => contains_str(&p.exclude, c.provider.slug.as_str()),
            None => false,
        };
        if by_profile || contains_str(&req.exclude_provider_slugs, c.provider.slug.as_str()) {
            return Some(SkipReason::ExcludedByProfile);
        }
        None
    }

    /// Runs the hard filters over `pool` for `req`, with the key ids in
    /// `extra_excludes` (those already tried) excluded too. A candidate is
    /// skipped when its provider or key is inactive, its key is excluded, its
    /// key is on cooldown at `now_ms`, or its provider is excluded by the
    /// request's profile or by the request; the others may be scored.
    pub fn screen(
        &self,
        pool: &Vec<Candidate>,
        req: &SelectRequest,
        extra_excludes: &Vec<String>,
        now_ms: u64,
    ) -> (res: Screening)
        ensures
            res.eligible@ == eligible_upto(
                pool@,
                pool@.len() as int,
                *req,
                extra_excludes@,
                request_profile(self.profiles@, *req),
                self.rate_limit@,
                now_ms,
            ),
            res.skipped@ == skipped_upto(
                pool@,
                pool@.len() as int,
                *req,
                extra_excludes@,
                request_profile(self.profiles@, *req),
                self.rate_limit@,
                now_ms,
            ),
    {
        let lang = match &req.language {
            Some(l) => Some(l.as_str()),
            None => None,
        };
        let cty = match &req.country {
            Some(c) => Some(c.as_str()),
            None => None,
        };
        let profile = self.profiles.find(lang, cty);
        let ghost prof = request_profile(self.profiles@, *req);
        assert(prof == match profile { Some(p) => Some(*p), None => None::<LanguageProfile> });
        let mut eligible: Vec<usize> = Vec::new();
        let mut skipped: Vec<Skip> = Vec::new();
        let mut i: usize = 0;
        while i < pool.len()
            invariant
                i <= pool@.len(),
                prof == match profile { Some(p) => Some(*p), None => None::<LanguageProfile> },
                eligible@ == eligible_upto(pool@, i as int, *req, extra_excludes@, prof, self.rate_limit@, now_ms),
                skipped@ == skipped_upto(pool@, i as int, *req, extra_excludes@, prof, self.rate_limit@, now_ms),
            decreases pool.len() - i,
        {
            let c = &pool[i];
            match self.skip_reason(c, req, extra_excludes, profile, now_ms) {
                None => {
                    eligible.push(i);
                },
                Some(r) => {
                    let remaining = if r == SkipReason::RateLimitCooldown {
                        Some(self.rate_limit.cooldown_remaining_ms(c.api_key.id.as_str(), now_ms))
                    } else {
                        None
                    };
                    skipped.push(Skip { index: i, reason: r, cooldown_remaining_ms: remaining });
                },
            }
            i = i + 1;
        }
        Screening { eligible, skipped }
    }
}


/// The keys under which a provider's coverage score for a locale is looked
/// up, in order: `language_country` when both are given, then `language`
/// when it is given.
pub open spec fn spec_coverage_keys(language: Option<Seq<char>>, country: Option<Seq<char>>) -> Seq<Seq<char>> {
    match language {
        Some(l) => match country {
            Some(c) => seq![l + seq!['_'] + c, l],
            None => seq![l],
        },
        None => Seq::empty(),
    }
}

/// The keys under which a coverage score for a locale is looked up, most
/// specific first.
pub fn coverage_keys(language: Option<&str>, country: Option<&str>) -> (res: Vec<String>)
    ensures
        views(res@) == spec_coverage_keys(opt_slice_view(language), opt_slice_view(country)),
{
    let mut out: Vec<String> = Vec::new();
    match language {
        Some(l) => {
            match country {
                Some(c) => {
                    proof {
                        reveal_strlit("_");
                        assert("_"@ =~= seq!['_']);
                    }
                    out.push(concat3(l, "_", c));
                },
                None => {},
            }
            out.push(to_owned_string(l));
        },
        None => {},
    }
    proof {
        assert(views(out@) =~= spec_coverage_keys(opt_slice_view(language), opt_slice_view(country)));
    }
    out
}

/// Coverage is looked up most specific first: with a language and a
/// country the first key is `language_country`, strictly longer than the
/// second, which is the language alone; with only a language the one key is
/// that language; without a language there is no key. Every key starts with
/// the language.
pub proof fn law_coverage_keys_most_specific_first(language: Option<Seq<char>>, country: Option<Seq<char>>)
    ensures
        ({
            let keys = spec_coverage_keys(language, country);
            &&& language is None ==> keys.len() == 0
            &&& language is Some ==> ({
                let l = language->0;
                &&& keys.len() >= 1
                &&& keys.last() == l
                &&& forall|i: int| 0 <= i < keys.len() ==> (#[trigger] keys[i]).subrange(0, l.len() as int) == l
            })
            &&& language is Some && country is None ==> keys.len() == 1
            &&& language is Some && country is Some ==> ({
                let l = language->0;
                let c = country->0;
                &&& keys.len() == 2
                &&& keys[0] == l + seq!['_'] + c
                &&& keys[0].len() == l.len() + 1 + c.len()
                &&& keys[0].len() > keys[1].len()
                &&& keys[0][l.len() as int] == '_'
                &&& keys[0].subrange(l.len() as int + 1, keys[0].len() as int) == c
            })
        }),
{
    match language {
        Some(l) => {
            let keys = spec_coverage_keys(language, country);
            match country {
                Some(c) => {
                    assert((l + seq!['_'] + c).subrange(0, l.len() as int) =~= l);
                    assert(l.subrange(0, l.len() as int) =~= l);
                    assert((l + seq!['_'] + c).subrange(l.len() as int + 1, (l + seq!['_'] + c).len() as int) =~= c);
                },
                None => {
                    assert(l.subrange(0, l.len() as int) =~= l);
                },
            }
        },
        None => {},
    }
}

// ---------------------------------------------------------------------------
// The integer bounds that scoring normalises against
// ---------------------------------------------------------------------------

/// What the scores of the eligible candidates are normalised against: the
/// lowest and highest effective priority, the highest average latency (and
/// at least 0), and the most requests any of their keys made in the last
/// five minutes.
#[derive(Debug, Clone, Copy, PartialEq, Eq, Structural)]
pub struct ScoreBounds {
    pub min_priority: i64,
    pub max_priority: i64,
    pub max_latency_ms: i64,
    pub max_five_min: usize,
}

/// The effective priority of the `j`-th eligible candidate.
pub open spec fn eligible_priority(pool: Seq<Candidate>, eligible: Seq<usize>, j: int) -> i64 {
    pool[eligible[j] as int].spec_effective_priority()
}

/// The average latency of the `j`-th eligible candidate's provider.
pub open spec fn eligible_latency(pool: Seq<Candidate>, eligible: Seq<usize>, j: int) -> Option<i64> {
    pool[eligible[j] as int].provider.avg_latency_ms
}

/// The bounds of the eligible candidates `eligible` of `pool`, where
/// `five_min[j]` is the five-minute request count of the `j`-th one's key.
pub fn score_bounds(pool: &Vec<Candidate>, eligible: &Vec<usize>, five_min: &Vec<usize>) -> (res: ScoreBounds)
    requires
        eligible@.len() > 0,
        five_min@.len() == eligible@.len(),
        forall|j: int| 0 <= j < eligible@.len() ==> eligible@[j] < pool@.len(),
    ensures
        forall|j: int| 0 <= j < eligible@.len() ==> res.min_priority <= #[trigger] eligible_priority(pool@, eligible@, j)
            <= res.max_priority,
        exists|j: int| 0 <= j < eligible@.len() && #[trigger] eligible_priority(pool@, eligible@, j) == res.min_priority,
        exists|j: int| 0 <= j < eligible@.len() && #[trigger] eligible_priority(pool@, eligible@, j) == res.max_priority,
        res.max_latency_ms >= 0,
        forall|j: int| 0 <= j < eligible@.len() ==> (#[trigger] eligible_latency(pool@, eligible@, j) matches Some(l)
            ==> l <= res.max_latency_ms),
        res.max_latency_ms > 0 ==> exists|j: int| 0 <= j < eligible@.len()
            && #[trigger] eligible_latency(pool@, eligible@, j) == Some(res.max_latency_ms),
        forall|j: int| 0 <= j < eligible@.len() ==> five_min@[j] <= res.max_five_min,
        exists|j: int| 0 <= j < eligible@.len() && five_min@[j] == res.max_five_min,
{
    let first = pool[eligible[0]].effective_priority();
    let mut lo = first;
    let mut hi = first;
    let mut lat: i64 = 0;
    let mut most = five_min[0];
    assert(eligible_priority(pool@, eligible@, 0) == first);
    let mut i: usize = 0;
    while i < eligible.len()
        invariant
            0 <= i <= eligible@.len(),
            eligible@.len() > 0,
            five_min@.len() == eligible@.len(),
            forall|j: int| 0 <= j < eligible@.len() ==> eligible@[j] < pool@.len(),
            forall|j: int| 0 <= j < i ==> lo <= #[trigger] eligible_priority(pool@, eligible@, j) <= hi,
            exists|j: int| 0 <= j < eligible@.len() && #[trigger] eligible_priority(pool@, eligible@, j) == lo,
            exists|j: int| 0 <= j < eligible@.len() && #[trigger] eligible_priority(pool@, eligible@, j) == hi,
            lat >= 0,
            forall|j: int| 0 <= j < i ==> (#[trigger] eligible_latency(pool@, eligible@, j) matches Some(l) ==> l <= lat),
            lat > 0 ==> exists|j: int| 0 <= j < eligible@.len() && #[trigger] eligible_latency(pool@, eligible@, j) == Some(lat),
            forall|j: int| 0 <= j < i ==> five_min@[j] <= most,
            exists|j: int| 0 <= j < eligible@.len() && five_min@[j] == most,
        decreases eligible.len() - i,
    {
        let c = &pool[eligible[i]];
        let p = c.effective_priority();
        assert(eligible_priority(pool@, eligible@, i as int) == p);
        assert(eligible_latency(pool@, eligible@, i as int) == c.provider.avg_latency_ms);
        if p < lo {
            lo = p;
        }
        if p > hi {
            hi = p;
        }
        match c.provider.avg_latency_ms {
            Some(l) => {
                if l > lat {
                    lat = l;
                }
            },
            None => {},
        }
        if five_min[i] > most {
            most = five_min[i];
        }
        i = i + 1;
    }
    ScoreBounds { min_priority: lo, max_priority: hi, max_latency_ms: lat, max_five_min: most }
}

// ---------------------------------------------------------------------------
// Laws
// ---------------------------------------------------------------------------

/// Screening splits a pool: every candidate is either eligible or skipped
/// (never both), the eligible ones come in pool order, and an eligible
/// candidate has an active provider and key, a key that is neither excluded
/// nor on cooldown, and a provider that neither the profile nor the request
/// excludes. A skip carries the first filter the candidate failed.
pub proof fn law_screening_partitions_pool(
    pool: Seq<Candidate>,
    k: int,
    req: SelectRequest,
    extra: Seq<String>,
    profile: Option<LanguageProfile>,
    cooldowns: Map<Seq<char>, Cooldown>,
    now: u64,
)
    requires
        0 <= k <= pool.len(),
        pool.len() <= usize::MAX,
    ensures
        ({
            let e = eligible_upto(pool, k, req, extra, profile, cooldowns, now);
            let s = skipped_upto(pool, k, req, extra, profile, cooldowns, now);
            &&& e.len() + s.len() == k
            &&& forall|a: int, b: int| 0 <= a < b < e.len() ==> e[a] < e[b]
            &&& forall|a: int| 0 <= a < e.len() ==> 0 <= #[trigger] e[a] < k
            &&& forall|a: int| 0 <= a < e.len() ==> {
                let c = #[trigger] pool[e[a] as int];
                &&& c.provider.is_active
                &&& c.api_key.is_active
                &&& !seq_has(extra, c.api_key.id@)
                &&& !seq_has(req.exclude_key_ids@, c.api_key.id@)
                &&& !spec_limited(cooldowns, c.api_key.id@, now)
                &&& !slug_excluded(profile, req, c.provider.slug@)
            }
            &&& forall|a: int| 0 <= a < s.len() ==> 0 <= (#[trigger] s[a]).index < k
                && spec_skip_reason(pool[s[a].index as int], req, extra, profile, cooldowns, now) == Some(s[a].reason)
            &&& forall|j: int| 0 <= j < k ==> (spec_skip_reason(pool[j], req, extra, profile, cooldowns, now) is None
                <==> e.contains(j as usize))
        }),
    decreases k,
{
    if k > 0 {
        law_screening_partitions_pool(pool, k - 1, req, extra, profile, cooldowns, now);
        let e0 = eligible_upto(pool, k - 1, req, extra, profile, cooldowns, now);
        let e = eligible_upto(pool, k, req, extra, profile, cooldowns, now);
        let s0 = skipped_upto(pool, k - 1, req, extra, profile, cooldowns, now);
        let s = skipped_upto(pool, k, req, extra, profile, cooldowns, now);
        assert forall|a: int, b: int| 0 <= a < b < e.len() implies e[a] < e[b] by {
            if b >= e0.len() {
                assert(e.len() == e0.len() + 1);
                assert(e[b] == (k - 1) as usize);
                assert(e[a] == e0[a]);
            } else {
                assert(e[a] == e0[a] && e[b] == e0[b]);
            }
        }
        assert forall|a: int| 0 <= a < e.len() implies 0 <= e[a] < k
            && spec_skip_reason(pool[e[a] as int], req, extra, profile, cooldowns, now) is None by {
            if a < e0.len() {
                assert(e[a] == e0[a]);
            }
        }
        assert forall|a: int| 0 <= a < s.len() implies 0 <= (#[trigger] s[a]).index < k
            && spec_skip_reason(pool[s[a].index as int], req, extra, profile, cooldowns, now) == Some(s[a].reason) by {
            if a < s0.len() {
                assert(s[a] == s0[a]);
            }
        }
        assert forall|j: int| 0 <= j < k implies (spec_skip_reason(pool[j], req, extra, profile, cooldowns, now) is None
            <==> e.contains(j as usize)) by {
            if j < k - 1 {
                if e.contains(j as usize) {
                    let a = choose|a: int| 0 <= a < e.len() && e[a] == j as usize;
                    if a < e0.len() {
                        assert(e0[a] == j as usize);
                    }
                }
                if e0.contains(j as usize) {
                    let a = choose|a: int| 0 <= a < e0.len() && e0[a] == j as usize;
                    assert(e[a] == j as usize);
                }
            } else {
                if spec_skip_reason(pool[j], req, extra, profile, cooldowns, now) is None {
                    assert(e[e.len() - 1] == j as usize);
                } else {
                    if e.contains(j as usize) {
                        let a = choose|a: int| 0 <= a < e.len() && e[a] == j as usize;
                        assert(e0[a] < k - 1);
                    }
                }
            }
        }
    }
}

} // verus!
