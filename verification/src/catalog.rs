//! The in-memory catalog of providers, keys and groups, and the candidate
//! pool it yields for a request.

use vstd::prelude::*;
use crate::models::{ApiKey, Candidate, CandidateView, Group, GroupMember, Provider};
use crate::text::str_eq;

verus! {

/// The index of the first element of `s` from `i` on that satisfies `f`.
pub open spec fn first_index<T>(s: Seq<T>, f: spec_fn(T) -> bool, i: int) -> Option<int>
    decreases s.len() - i,
{
    if i < 0 || i >= s.len() {
        None
    } else if f(s[i]) {
        Some(i)
    } else {
        first_index(s, f, i + 1)
    }
}

pub proof fn lemma_first_index<T>(s: Seq<T>, f: spec_fn(T) -> bool, i: int)
    requires
        0 <= i,
    ensures
        first_index(s, f, i) matches Some(k) ==> i <= k < s.len() && f(s[k])
            && forall|j: int| i <= j < k ==> !f(s[j]),
        first_index(s, f, i) is None ==> forall|j: int| i <= j < s.len() ==> !f(s[j]),
    decreases s.len() - i,
{
    if i < s.len() {
        lemma_first_index(s, f, i + 1);
    }
}

/// The active group with this slug.
pub open spec fn group_with_slug(slug: Seq<char>) -> spec_fn(Group) -> bool {
    |g: Group| g.slug@ == slug && g.is_active
}

/// The active key with this id.
pub open spec fn active_key_with_id(id: Seq<char>) -> spec_fn(ApiKey) -> bool {
    |k: ApiKey| k.id@ == id && k.is_active
}

/// The provider with this id.
pub open spec fn provider_with_id(id: Seq<char>) -> spec_fn(Provider) -> bool {
    |p: Provider| p.id@ == id
}

/// The active provider with this id.
pub open spec fn active_provider_with_id(id: Seq<char>) -> spec_fn(Provider) -> bool {
    |p: Provider| p.id@ == id && p.is_active
}

/// In-memory mirror of the provider/key/group catalog.
#[derive(Debug, Clone)]
pub struct Catalog {
    pub providers: Vec<Provider>,
    pub api_keys: Vec<ApiKey>,
    pub groups: Vec<Group>,
    pub group_members: Vec<GroupMember>,
}

impl Catalog {
    /// The candidate a group member yields: its active key and that key's
    /// provider.
    pub open spec fn member_candidate(&self, m: GroupMember) -> Option<CandidateView> {
        match first_index(self.api_keys@, active_key_with_id(m.api_key_id@), 0) {
            Some(ki) => match first_index(self.providers@, provider_with_id(self.api_keys@[ki].provider_id@), 0) {
                Some(pi) => Some(CandidateView {
                    provider: self.providers@[pi]@,
                    api_key: self.api_keys@[ki]@,
                    member_priority: Some(m.priority),
                }),
                None => None,
            },
            None => None,
        }
    }

    /// The candidates from the first `k` members of group `gid`.
    pub open spec fn group_candidates(&self, gid: Seq<char>, k: int) -> Seq<CandidateView>
        decreases k,
    {
        if k <= 0 {
            Seq::empty()
        } else {
            let before = self.group_candidates(gid, k - 1);
            let m = self.group_members@[k - 1];
            if m.group_id@ == gid && m.is_enabled {
                match self.member_candidate(m) {
                    Some(c) => before.push(c),
                    None => before,
                }
            } else {
                before
            }
        }
    }

    /// The candidate a key yields outside any group: itself, if active, with
    /// its active provider.
    pub open spec fn key_candidate(&self, key: ApiKey) -> Option<CandidateView> {
        if key.is_active {
            match first_index(self.providers@, active_provider_with_id(key.provider_id@), 0) {
                Some(pi) => Some(CandidateView {
                    provider: self.providers@[pi]@,
                    api_key: key@,
                    member_priority: None,
                }),
                None => None,
            }
        } else {
            None
        }
    }

    /// The candidates from the first `k` keys, outside any group.
    pub open spec fn all_candidates(&self, k: int) -> Seq<CandidateView>
        decreases k,
    {
        if k <= 0 {
            Seq::empty()
        } else {
            let before = self.all_candidates(k - 1);
            match self.key_candidate(self.api_keys@[k - 1]) {
                Some(c) => before.push(c),
                None => before,
            }
        }
    }

    /// The pool a request gets: with a slug, only the enabled members of the
    /// active group with that slug (none when no active group has it);
    /// without, every active key of every active provider.
    pub open spec fn spec_candidates(&self, group_slug: Option<Seq<char>>) -> Seq<CandidateView> {
        let whole = self.all_candidates(self.api_keys@.len() as int);
        match group_slug {
            Some(slug) => match first_index(self.groups@, group_with_slug(slug), 0) {
                Some(gi) => self.group_candidates(self.groups@[gi].id@, self.group_members@.len() as int),
                None => Seq::empty(),
            },
            None => whole,
        }
    }

    fn find_group(&self, slug: &str) -> (res: Option<usize>)
        ensures
            res is None <==> first_index(self.groups@, group_with_slug(slug@), 0) is None,
            res matches Some(i) ==> i < self.groups@.len()
                && first_index(self.groups@, group_with_slug(slug@), 0) == Some(i as int),
    {
        proof { lemma_first_index(self.groups@, group_with_slug(slug@), 0); }
        let mut i: usize = 0;
        while i < self.groups.len()
            invariant
                i <= self.groups@.len(),
                first_index(self.groups@, group_with_slug(slug@), 0)
                    == first_index(self.groups@, group_with_slug(slug@), i as int),
            decreases self.groups.len() - i,
        {
            let g = &self.groups[i];
            if str_eq(g.slug.as_str(), slug) && g.is_active {
                return Some(i);
            }
            i = i + 1;
        }
        None
    }

    fn find_active_key(&self, id: &str) -> (res: Option<usize>)
        ensures
            res is None <==> first_index(self.api_keys@, active_key_with_id(id@), 0) is None,
            res matches Some(i) ==> i < self.api_keys@.len() && first_index(self.api_keys@, active_key_with_id(id@), 0) == Some(i as int),
    {
        proof { lemma_first_index(self.api_keys@, active_key_with_id(id@), 0); }
        let mut i: usize = 0;
        while i < self.api_keys.len()
            invariant
                i <= self.api_keys@.len(),
                first_index(self.api_keys@, active_key_with_id(id@), 0)
                    == first_index(self.api_keys@, active_key_with_id(id@), i as int),
            decreases self.api_keys.len() - i,
        {
            let k = &self.api_keys[i];
            if str_eq(k.id.as_str(), id) && k.is_active {
                return Some(i);
            }
            i = i + 1;
        }
        None
    }

    fn find_provider(&self, id: &str, must_be_active: bool) -> (res: Option<usize>)
        ensures
            res is None <==> first_index(
                self.providers@,
                if must_be_active { active_provider_with_id(id@) } else { provider_with_id(id@) },
                0,
            ) is None,
            res matches Some(i) ==> i < self.providers@.len() && first_index(self.providers@,
                if must_be_active { active_provider_with_id(id@) } else { provider_with_id(id@) }, 0) == Some(i as int),
    {
        proof {
            lemma_first_index(self.providers@, active_provider_with_id(id@), 0);
            lemma_first_index(self.providers@, provider_with_id(id@), 0);
        }
        let ghost f = if must_be_active { active_provider_with_id(id@) } else { provider_with_id(id@) };
        let mut i: usize = 0;
        while i < self.providers.len()
            invariant
                i <= self.providers@.len(),
                f == (if must_be_active { active_provider_with_id(id@) } else { provider_with_id(id@) }),
                first_index(self.providers@, f, 0) == first_index(self.providers@, f, i as int),
            decreases self.providers.len() - i,
        {
            let p = &self.providers[i];
            if str_eq(p.id.as_str(), id) && (!must_be_active || p.is_active) {
                return Some(i);
            }
            i = i + 1;
        }
        None
    }

    /// The candidate a group member yields, if its key and provider exist.
    fn member_candidate_exec(&self, m: &GroupMember) -> (res: Option<Candidate>)
        ensures
            match res {
                Some(c) => self.member_candidate(*m) == Some(c@),
                None => self.member_candidate(*m) is None,
            },
    {
        match self.find_active_key(m.api_key_id.as_str()) {
            Some(ki) => {
                let key = &self.api_keys[ki];
                match self.find_provider(key.provider_id.as_str(), false) {
                    Some(pi) => Some(Candidate {
                        provider: self.providers[pi].copy(),
                        api_key: key.copy(),
                        member_priority: Some(m.priority),
                    }),
                    None => None,
                }
            },
            None => None,
        }
    }

    /// The candidate a key yields outside any group.
    fn key_candidate_exec(&self, k: &ApiKey) -> (res: Option<Candidate>)
        ensures
            match res {
                Some(c) => self.key_candidate(*k) == Some(c@),
                None => self.key_candidate(*k) is None,
            },
    {
        if !k.is_active {
            return None;
        }
        match self.find_provider(k.provider_id.as_str(), true) {
            Some(pi) => {
                let c = Candidate { provider: self.providers[pi].copy(), api_key: k.copy(), member_priority: None };
                Some(c)
            },
            None => None,
        }
    }

    /// Builds the candidate pool for an optional group slug: the enabled
    /// members of that active group, each with its active key and the key's
    /// provider, carrying the member priority (an empty pool when no active
    /// group has the slug); or, without a slug, every active key whose
    /// provider is active.
    pub fn candidates(&self, group_slug: Option<&str>) -> (res: Vec<Candidate>)
        ensures
            res@.map_values(|c: Candidate| c@) == self.spec_candidates(
                match group_slug { Some(s) => Some(s@), None => None },
            ),
    {
        if let Some(slug) = group_slug {
            if let Some(gi) = self.find_group(slug) {
                let gid = self.groups[gi].id.as_str();
                let mut out: Vec<Candidate> = Vec::new();
                let mut i: usize = 0;
                proof {
                    assert(out@.map_values(|c: Candidate| c@) =~= self.group_candidates(gid@, 0));
                }
                while i < self.group_members.len()
                    invariant
                        i <= self.group_members@.len(),
                        gi < self.groups@.len(),
                        gid@ == self.groups@[gi as int].id@,
                        out@.map_values(|c: Candidate| c@) == self.group_candidates(gid@, i as int),
                    decreases self.group_members.len() - i,
                {
                    let m = &self.group_members[i];
                    let ghost before = out@;
                    if str_eq(m.group_id.as_str(), gid) && m.is_enabled {
                        if let Some(c) = self.member_candidate_exec(m) {
                            out.push(c);
                            proof {
                                assert(out@ == before.push(c));
                                assert(out@.map_values(|c: Candidate| c@)
                                    =~= before.map_values(|c: Candidate| c@).push(c@));
                            }
                        }
                    }
                    proof {
                        assert(out@.map_values(|c: Candidate| c@) =~= self.group_candidates(gid@, i + 1));
                    }
                    i = i + 1;
                }
                return out;
            }
            let none: Vec<Candidate> = Vec::new();
            proof {
                assert(none@.map_values(|c: Candidate| c@) =~= Seq::<CandidateView>::empty());
            }
            return none;
        }
        let mut out: Vec<Candidate> = Vec::new();
        let mut i: usize = 0;
        proof {
            assert(out@.map_values(|c: Candidate| c@) =~= self.all_candidates(0));
        }
        while i < self.api_keys.len()
            invariant
                i <= self.api_keys@.len(),
                out@.map_values(|c: Candidate| c@) == self.all_candidates(i as int),
            decreases self.api_keys.len() - i,
        {
            let k = &self.api_keys[i];
            let ghost before = out@;
            if let Some(c) = self.key_candidate_exec(k) {
                out.push(c);
                proof {
                    assert(out@ == before.push(c));
                    assert(out@.map_values(|c: Candidate| c@) =~= before.map_values(|c: Candidate| c@).push(c@));
                }
            }
            proof {
                assert(out@.map_values(|c: Candidate| c@) =~= self.all_candidates(i + 1));
            }
            i = i + 1;
        }
        out
    }
}

/// Whether member `i` of the catalog is an enabled member of group `gid`
/// that yields candidate `c`: same key id, an active key, and the member's
/// priority.
pub open spec fn from_enabled_member(cat: Catalog, gid: Seq<char>, i: int, c: CandidateView) -> bool {
    &&& 0 <= i < cat.group_members@.len()
    &&& cat.group_members@[i].is_enabled
    &&& cat.group_members@[i].group_id@ == gid
    &&& cat.group_members@[i].api_key_id@ == c.api_key.id
    &&& c.api_key.is_active
    &&& c.member_priority == Some(cat.group_members@[i].priority)
}

/// Candidate `c` comes from one of the first `bound` members of the
/// catalog that is an enabled member of group `gid`.
pub open spec fn yielded_by_member(cat: Catalog, gid: Seq<char>, bound: int, c: CandidateView) -> bool {
    exists|i: int| 0 <= i < bound && #[trigger] from_enabled_member(cat, gid, i, c)
}

/// Every candidate of `r` comes from one of the first `bound` members of
/// the catalog that is an enabled member of group `gid`.
pub open spec fn from_enabled_members(cat: Catalog, gid: Seq<char>, bound: int, r: Seq<CandidateView>) -> bool {
    forall|j: int| 0 <= j < r.len() ==> #[trigger] yielded_by_member(cat, gid, bound, r[j])
}

proof fn lemma_group_candidates_from_members(cat: Catalog, gid: Seq<char>, k: int)
    requires
        0 <= k <= cat.group_members@.len(),
    ensures
        from_enabled_members(cat, gid, k, cat.group_candidates(gid, k)),
    decreases k,
{
    if k > 0 {
        lemma_group_candidates_from_members(cat, gid, k - 1);
        let before = cat.group_candidates(gid, k - 1);
        let cur = cat.group_candidates(gid, k);
        let m = cat.group_members@[k - 1];
        lemma_first_index(cat.api_keys@, active_key_with_id(m.api_key_id@), 0);
        assert forall|j: int| 0 <= j < cur.len() implies #[trigger] yielded_by_member(cat, gid, k, cur[j]) by {
            if j < before.len() {
                assert(cur[j] == before[j]);
                assert(yielded_by_member(cat, gid, k - 1, before[j]));
                let i = choose|i: int| 0 <= i < k - 1 && #[trigger] from_enabled_member(cat, gid, i, before[j]);
                assert(from_enabled_member(cat, gid, i, cur[j]));
            } else {
                assert(from_enabled_member(cat, gid, k - 1, cur[j]));
            }
        }
    }
}

/// A group's pool holds only what its enabled members yield: for a slug,
/// the pool is empty unless an active group has that slug, and then every
/// candidate comes from an enabled member of that group, carries that
/// member's priority and has the member's key, active; a disabled member,
/// or a member of another group, is never tried.
pub proof fn law_group_pool_is_enabled_members(cat: Catalog, slug: Seq<char>)
    ensures
        cat.spec_candidates(Some(slug)).len() == 0 || exists|gi: int|
            0 <= gi < cat.groups@.len() && #[trigger] cat.groups@[gi].slug@ == slug && cat.groups@[gi].is_active
            && from_enabled_members(
                cat,
                cat.groups@[gi].id@,
                cat.group_members@.len() as int,
                cat.spec_candidates(Some(slug)),
            ),
{
    lemma_first_index(cat.groups@, group_with_slug(slug), 0);
    match first_index(cat.groups@, group_with_slug(slug), 0) {
        Some(gi) => {
            let gid = cat.groups@[gi].id@;
            lemma_group_candidates_from_members(cat, gid, cat.group_members@.len() as int);
            assert(cat.groups@[gi].slug@ == slug);
        },
        None => {},
    }
}

} // verus!
