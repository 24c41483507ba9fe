//! Language/country routing profiles and how a request picks one.

use vstd::prelude::*;
use crate::text::{is_wildcard, lemma_position_found, position_of, seq_has, spec_position, str_eq, wildcard};

verus! {

/// Routing preferences for one (language, country) pair; `*` is a wildcard.
#[derive(Debug, Clone)]
pub struct LanguageProfile {
    /// ISO 639-1 language code or `*`.
    pub language: String,
    /// ISO 3166-1 alpha-2 country code or `*`.
    pub country: String,
    /// Provider slugs in preferred order (first = highest boost).
    pub priority: Vec<String>,
    /// Provider slugs excluded entirely for this locale.
    pub exclude: Vec<String>,
}

/// 3 for (language, country), 2 for (language, *), 1 otherwise.
pub open spec fn spec_specificity(p: LanguageProfile) -> u8 {
    if p.language@ != wildcard() && p.country@ != wildcard() {
        3
    } else if p.language@ != wildcard() {
        2
    } else {
        1
    }
}

impl LanguageProfile {
    /// 3 for a (language, country) profile, 2 for (language, *), 1 otherwise.
    pub fn specificity(&self) -> (res: u8)
        ensures
            res == spec_specificity(*self),
    {
        let l = is_wildcard(self.language.as_str());
        let c = is_wildcard(self.country.as_str());
        if !l && !c {
            3
        } else if !l {
            2
        } else {
            1
        }
    }

    /// Position of `provider_slug` in the preferred order, if listed.
    pub fn priority_position(&self, provider_slug: &str) -> (res: Option<usize>)
        ensures
            res matches Some(i) ==> spec_position(self.priority@, provider_slug@) == Some(i as int),
            res is None ==> spec_position(self.priority@, provider_slug@) is None,
    {
        position_of(&self.priority, provider_slug)
    }
}

/// Whether profile `p` applies to the requested `lang`/`cty` (each `*` when
/// not given).
pub open spec fn spec_matches(p: LanguageProfile, lang: Seq<char>, cty: Seq<char>) -> bool {
    (p.language@ == wildcard() || p.language@ == lang) && (p.country@ == wildcard() || p.country@ == cty)
}

/// The index of the first profile from `i` on with specificity `t` that applies.
pub open spec fn first_from(ps: Seq<LanguageProfile>, lang: Seq<char>, cty: Seq<char>, t: u8, i: int) -> Option<int>
    decreases ps.len() - i,
{
    if i < 0 || i >= ps.len() {
        None
    } else if spec_specificity(ps[i]) == t && spec_matches(ps[i], lang, cty) {
        Some(i)
    } else {
        first_from(ps, lang, cty, t, i + 1)
    }
}

/// The profile chosen for `lang`/`cty`: the first applicable one of
/// specificity 3, else of 2, else of 1.
pub open spec fn spec_find(ps: Seq<LanguageProfile>, lang: Seq<char>, cty: Seq<char>) -> Option<int> {
    match first_from(ps, lang, cty, 3, 0) {
        Some(i) => Some(i),
        None => match first_from(ps, lang, cty, 2, 0) {
            Some(i) => Some(i),
            None => first_from(ps, lang, cty, 1, 0),
        },
    }
}

/// The requested value, or `*` when absent.
pub open spec fn or_wildcard(o: Option<Seq<char>>) -> Seq<char> {
    match o {
        Some(s) => s,
        None => wildcard(),
    }
}

pub open spec fn opt_slice_view(o: Option<&str>) -> Option<Seq<char>> {
    match o {
        Some(s) => Some(s@),
        None => None,
    }
}

/// Profiles ordered most specific first, keeping the given order within one
/// specificity.
pub open spec fn by_specificity(ps: Seq<LanguageProfile>) -> Seq<LanguageProfile> {
    ps.filter(|p: LanguageProfile| spec_specificity(p) == 3)
        + ps.filter(|p: LanguageProfile| spec_specificity(p) == 2)
        + ps.filter(|p: LanguageProfile| spec_specificity(p) == 1)
}

/// The boost of a provider's place in a profile's preferred order as a
/// fraction: (n - pos, n) for position `pos` among `n` listed slugs, (0, 1)
/// when the slug is not listed.
pub open spec fn spec_coverage_boost(p: LanguageProfile, slug: Seq<char>) -> (nat, nat) {
    match spec_position(p.priority@, slug) {
        Some(pos) => ((p.priority@.len() - pos) as nat, p.priority@.len()),
        None => (0, 1),
    }
}

/// Picks the best profile for a request's language and country.
#[derive(Debug, Clone)]
pub struct ProfileMatcher {
    profiles: Vec<LanguageProfile>,
}

impl View for ProfileMatcher {
    type V = Seq<LanguageProfile>;

    closed spec fn view(&self) -> Seq<LanguageProfile> {
        self.profiles@
    }
}

proof fn lemma_filter_step(s: Seq<LanguageProfile>, i: int, t: u8)
    requires
        0 <= i < s.len(),
    ensures
        s.take(i + 1).filter(|p: LanguageProfile| spec_specificity(p) == t) == (if spec_specificity(s[i]) == t {
            s.take(i).filter(|p: LanguageProfile| spec_specificity(p) == t).push(s[i])
        } else {
            s.take(i).filter(|p: LanguageProfile| spec_specificity(p) == t)
        }),
{
    reveal(Seq::filter);
    assert(s.take(i + 1).drop_last() =~= s.take(i));
}

impl ProfileMatcher {
    /// Orders the profiles most specific first; profiles of equal
    /// specificity keep their given order.
    pub fn new(profiles: Vec<LanguageProfile>) -> (res: ProfileMatcher)
        ensures
            res@ == by_specificity(profiles@),
    {
        let ghost input = profiles@;
        let mut rest = profiles;
        let mut exact: Vec<LanguageProfile> = Vec::new();
        let mut lang_only: Vec<LanguageProfile> = Vec::new();
        let mut catch_all: Vec<LanguageProfile> = Vec::new();
        let ghost mut i: int = 0;
        proof {
            assert(input.take(0) =~= Seq::<LanguageProfile>::empty());
            assert(input.skip(0) =~= input);
            reveal(Seq::filter);
        }
        while rest.len() > 0
            invariant
                0 <= i <= input.len(),
                rest@ == input.skip(i),
                exact@ == input.take(i).filter(|p: LanguageProfile| spec_specificity(p) == 3),
                lang_only@ == input.take(i).filter(|p: LanguageProfile| spec_specificity(p) == 2),
                catch_all@ == input.take(i).filter(|p: LanguageProfile| spec_specificity(p) == 1),
            decreases rest.len(),
        {
            let p = rest.remove(0);
            proof {
                assert(p == input[i]);
                lemma_filter_step(input, i, 3);
                lemma_filter_step(input, i, 2);
                lemma_filter_step(input, i, 1);
                assert(rest@ =~= input.skip(i + 1));
                i = i + 1;
            }
            let s = p.specificity();
            if s == 3 {
                exact.push(p);
            } else if s == 2 {
                lang_only.push(p);
            } else {
                catch_all.push(p);
            }
        }
        proof {
            assert(input.take(i) =~= input);
        }
        exact.append(&mut lang_only);
        exact.append(&mut catch_all);
        ProfileMatcher { profiles: exact }
    }

    /// The profiles, most specific first.
    pub fn profiles(&self) -> (res: &Vec<LanguageProfile>)
        ensures
            res@ == self@,
    {
        &self.profiles
    }

    /// The best profile for `language`/`country`: an applicable
    /// (lang, country) profile, else (lang, *), else a catch-all; the first
    /// in order among equals.
    pub fn find(&self, language: Option<&str>, country: Option<&str>) -> (res: Option<&LanguageProfile>)
        ensures
            match spec_find(self@, or_wildcard(opt_slice_view(language)), or_wildcard(opt_slice_view(country))) {
                Some(i) => res == Some(&self@[i]),
                None => res is None,
            },
    {
        let ghost lang = or_wildcard(opt_slice_view(language));
        let ghost cty = or_wildcard(opt_slice_view(country));
        let mut t: u8 = 3;
        while t >= 1
            invariant
                1 <= t <= 3 || t == 0,
                lang == or_wildcard(opt_slice_view(language)),
                cty == or_wildcard(opt_slice_view(country)),
                t < 3 ==> first_from(self@, lang, cty, 3, 0) is None,
                t < 2 ==> first_from(self@, lang, cty, 2, 0) is None,
                t < 1 ==> first_from(self@, lang, cty, 1, 0) is None,
            decreases t,
        {
            let mut i: usize = 0;
            while i < self.profiles.len()
                invariant
                    1 <= t <= 3,
                    i <= self@.len(),
                    lang == or_wildcard(opt_slice_view(language)),
                    cty == or_wildcard(opt_slice_view(country)),
                    t < 3 ==> first_from(self@, lang, cty, 3, 0) is None,
                    t < 2 ==> first_from(self@, lang, cty, 2, 0) is None,
                    first_from(self@, lang, cty, t, 0) == first_from(self@, lang, cty, t, i as int),
                decreases self.profiles.len() - i,
            {
                let p = &self.profiles[i];
                assert(*p == self@[i as int]);
                if p.specificity() == t && self.applies(p, language, country) {
                    assert(first_from(self@, lang, cty, t, i as int) == Some(i as int));
                    return Some(p);
                }
                assert(first_from(self@, lang, cty, t, i as int) == first_from(self@, lang, cty, t, i + 1));
                i = i + 1;
            }
            t = t - 1;
        }
        None
    }

    /// The boost a provider gets from its place in a profile's preferred
    /// order, as a fraction (numerator, denominator): (n - pos)/n for the
    /// slug at position `pos` of `n` listed ones, so 1 for the first and 1/n
    /// for the last; 0/1 for a slug that is not listed.
    pub fn coverage_boost(profile: &LanguageProfile, provider_slug: &str) -> (res: (usize, usize))
        ensures
            res.0 == spec_coverage_boost(*profile, provider_slug@).0,
            res.1 == spec_coverage_boost(*profile, provider_slug@).1,
    {
        let n = profile.priority.len();
        if n == 0 {
            return (0, 1);
        }
        proof { lemma_position_found(profile.priority@, provider_slug@); }
        match profile.priority_position(provider_slug) {
            Some(pos) => (n - pos, n),
            None => (0, 1),
        }
    }

    /// Whether `p` applies to the request.
    fn applies(&self, p: &LanguageProfile, language: Option<&str>, country: Option<&str>) -> (res: bool)
        ensures
            res == spec_matches(*p, or_wildcard(opt_slice_view(language)), or_wildcard(opt_slice_view(country))),
    {
        let lang_match = is_wildcard(p.language.as_str()) || match language {
            Some(l) => str_eq(p.language.as_str(), l),
            None => is_wildcard(p.language.as_str()),
        };
        let cty_match = is_wildcard(p.country.as_str()) || match country {
            Some(c) => str_eq(p.country.as_str(), c),
            None => is_wildcard(p.country.as_str()),
        };
        lang_match && cty_match
    }
}


// ---------------------------------------------------------------------------
// Laws
// ---------------------------------------------------------------------------

proof fn lemma_first_from(ps: Seq<LanguageProfile>, lang: Seq<char>, cty: Seq<char>, t: u8, i: int)
    requires
        0 <= i,
    ensures
        first_from(ps, lang, cty, t, i) matches Some(k) ==> i <= k < ps.len()
            && spec_specificity(ps[k]) == t && spec_matches(ps[k], lang, cty)
            && forall|j: int| i <= j < k ==> !(spec_specificity(ps[j]) == t && spec_matches(ps[j], lang, cty)),
        first_from(ps, lang, cty, t, i) is None ==> forall|j: int|
            i <= j < ps.len() ==> !(spec_specificity(ps[j]) == t && spec_matches(ps[j], lang, cty)),
    decreases ps.len() - i,
{
    if i < ps.len() {
        lemma_first_from(ps, lang, cty, t, i + 1);
    }
}

/// The profile a request gets applies to it, no applicable profile is more
/// specific, and none of equal specificity comes before it; when no profile
/// is found, none applies.
pub proof fn law_find_picks_most_specific(ps: Seq<LanguageProfile>, lang: Seq<char>, cty: Seq<char>)
    ensures
        spec_find(ps, lang, cty) matches Some(i) ==> 0 <= i < ps.len() && spec_matches(ps[i], lang, cty)
            && (forall|j: int| 0 <= j < ps.len() && spec_matches(ps[j], lang, cty)
                ==> spec_specificity(ps[j]) <= spec_specificity(ps[i]))
            && (forall|j: int| 0 <= j < i && spec_specificity(ps[j]) == spec_specificity(ps[i])
                ==> !spec_matches(ps[j], lang, cty)),
        spec_find(ps, lang, cty) is None ==> forall|j: int| 0 <= j < ps.len() ==> !spec_matches(ps[j], lang, cty),
{
    lemma_first_from(ps, lang, cty, 3, 0);
    lemma_first_from(ps, lang, cty, 2, 0);
    lemma_first_from(ps, lang, cty, 1, 0);
}

/// A request with an exact (language, country) profile gets a profile of
/// that exact kind.
pub proof fn law_exact_profile_wins(ps: Seq<LanguageProfile>, lang: Seq<char>, cty: Seq<char>, k: int)
    requires
        0 <= k < ps.len(),
        ps[k].language@ == lang,
        ps[k].country@ == cty,
        lang != wildcard(),
        cty != wildcard(),
    ensures
        spec_find(ps, lang, cty) matches Some(i) && spec_specificity(ps[i]) == 3
            && ps[i].language@ == lang && ps[i].country@ == cty,
{
    law_find_picks_most_specific(ps, lang, cty);
    assert(spec_matches(ps[k], lang, cty));
}

/// A matcher holds every given profile, most specific first.
pub proof fn law_matcher_most_specific_first(ps: Seq<LanguageProfile>)
    ensures
        forall|i: int, j: int| 0 <= i <= j < by_specificity(ps).len()
            ==> spec_specificity(by_specificity(ps)[i]) >= spec_specificity(by_specificity(ps)[j]),
        forall|k: int| 0 <= k < ps.len() ==> by_specificity(ps).contains(#[trigger] ps[k]),
{
    let f3 = |p: LanguageProfile| spec_specificity(p) == 3;
    let f2 = |p: LanguageProfile| spec_specificity(p) == 2;
    let f1 = |p: LanguageProfile| spec_specificity(p) == 1;
    let a = ps.filter(f3);
    let b = ps.filter(f2);
    let c = ps.filter(f1);
    let r = by_specificity(ps);
    assert(r == a + b + c);
    assert forall|i: int| 0 <= i < r.len() implies #[trigger] spec_specificity(r[i]) == (if i < a.len() {
        3u8
    } else if i < a.len() + b.len() {
        2u8
    } else {
        1u8
    }) by {
        if i < a.len() {
            ps.lemma_filter_pred(f3, i);
        } else if i < a.len() + b.len() {
            ps.lemma_filter_pred(f2, i - a.len());
        } else {
            ps.lemma_filter_pred(f1, i - a.len() - b.len());
        }
    }
    assert forall|i: int, j: int| 0 <= i <= j < r.len() implies spec_specificity(r[i]) >= spec_specificity(r[j]) by {
        assert(spec_specificity(r[i]) == (if i < a.len() { 3u8 } else if i < a.len() + b.len() { 2u8 } else { 1u8 }));
        assert(spec_specificity(r[j]) == (if j < a.len() { 3u8 } else if j < a.len() + b.len() { 2u8 } else { 1u8 }));
    }
    assert forall|k: int| 0 <= k < ps.len() implies r.contains(#[trigger] ps[k]) by {
        let s = spec_specificity(ps[k]);
        if s == 3 {
            ps.lemma_filter_contains(f3, k);
            let m = choose|m: int| 0 <= m < a.len() && a[m] == ps[k];
            assert(r[m] == ps[k]);
        } else if s == 2 {
            ps.lemma_filter_contains(f2, k);
            let m = choose|m: int| 0 <= m < b.len() && b[m] == ps[k];
            assert(r[a.len() + m] == ps[k]);
        } else {
            ps.lemma_filter_contains(f1, k);
            let m = choose|m: int| 0 <= m < c.len() && c[m] == ps[k];
            assert(r[a.len() + b.len() + m] == ps[k]);
        }
    }
}

/// A profile's boost lies between 0 and 1: 1 for the first listed provider,
/// 1/n for the last of n, 0 for one not listed, and a provider listed
/// earlier gets a larger boost than one listed later.
pub proof fn law_coverage_boost_follows_preference(p: LanguageProfile, a: Seq<char>, b: Seq<char>)
    ensures
        spec_coverage_boost(p, a).1 > 0,
        spec_coverage_boost(p, a).0 <= spec_coverage_boost(p, a).1,
        p.priority@.len() > 0 && p.priority@[0]@ == a ==> spec_coverage_boost(p, a).0 == spec_coverage_boost(p, a).1,
        p.priority@.len() > 0 && p.priority@.last()@ == a && spec_position(p.priority@, a) == Some(
            p.priority@.len() - 1,
        ) ==> spec_coverage_boost(p, a).0 == 1,
        !seq_has(p.priority@, a) ==> spec_coverage_boost(p, a).0 == 0,
        seq_has(p.priority@, a) ==> spec_coverage_boost(p, a).0 > 0,
        ({
            match (spec_position(p.priority@, a), spec_position(p.priority@, b)) {
                (Some(i), Some(j)) => i < j ==> spec_coverage_boost(p, a).0 > spec_coverage_boost(p, b).0
                    && spec_coverage_boost(p, a).1 == spec_coverage_boost(p, b).1,
                (Some(_), None) => spec_coverage_boost(p, a).0 > spec_coverage_boost(p, b).0,
                _ => true,
            }
        }),
{
    lemma_position_found(p.priority@, a);
    lemma_position_found(p.priority@, b);
    if p.priority@.len() > 0 && p.priority@[0]@ == a {
        assert(spec_position(p.priority@, a) == Some(0int));
    }
}

/// A profile that names a language or a country applies only to requests
/// for exactly that language or country: a request without a country (read
/// as `*`) gets no profile that names one, and likewise for the language.
pub proof fn law_named_locale_needs_that_locale(p: LanguageProfile, lang: Seq<char>, cty: Seq<char>)
    ensures
        spec_matches(p, lang, cty) && p.country@ != wildcard() ==> cty == p.country@,
        spec_matches(p, lang, cty) && p.language@ != wildcard() ==> lang == p.language@,
        p.country@ != wildcard() ==> !spec_matches(p, lang, or_wildcard(None)),
        p.language@ != wildcard() ==> !spec_matches(p, or_wildcard(None), cty),
{
}

/// A request without a country gets a profile whose country is `*`, and a
/// request without a language one whose language is `*`, whatever the
/// profiles.
pub proof fn law_find_without_country(ps: Seq<LanguageProfile>, lang: Seq<char>, cty: Seq<char>)
    ensures
        spec_find(ps, lang, or_wildcard(None)) matches Some(i) ==> ps[i].country@ == wildcard(),
        spec_find(ps, or_wildcard(None), cty) matches Some(i) ==> ps[i].language@ == wildcard(),
{
    law_find_picks_most_specific(ps, lang, or_wildcard(None));
    law_find_picks_most_specific(ps, or_wildcard(None), cty);
}

} // verus!
