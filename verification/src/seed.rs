//! Registration of providers and keys found in the environment at startup.
//!
//! A provider with keys is registered under its slug; its key references are
//! the names of the variables `{PREFIX}_1` to `{PREFIX}_9` that hold a
//! non-empty value. Registration is idempotent: a provider already present
//! is left untouched, and a key reference already present for the provider
//! is left alone. Reading the environment and storage is left to the
//! caller; this module decides what to register.

use vstd::prelude::*;
use crate::models::Provider;
use crate::text::{concat3, decimal, spec_decimal, str_eq, to_owned_string, views};

verus! {

/// A provider that can be registered from the environment.
pub struct SeedDef {
    pub slug: String,
    pub name: String,
    /// Lower is preferred.
    pub priority: i64,
    /// The prefix of the variables that hold its key references.
    pub key_prefix: String,
    /// Whether its results must never be cached.
    pub no_cache: bool,
}

/// The providers that can be registered, as (slug, name, priority,
/// prefix, no-cache). The DDG bridge backends come in the bridge's default
/// backend order, each a candidate of its own so that cooldowns stay apart.
pub open spec fn seed_table() -> Seq<(Seq<char>, Seq<char>, i64, Seq<char>, bool)> {
    seq![
        ("ddg-yandex"@, "DDG Bridge (Yandex backend)"@, 1i64, "DDG_BRIDGE"@, true),
        ("ddg-mojeek"@, "DDG Bridge (Mojeek backend)"@, 2i64, "DDG_BRIDGE"@, true),
        ("ddg-startpage"@, "DDG Bridge (Startpage backend)"@, 3i64, "DDG_BRIDGE"@, true),
        ("ddg-yahoo"@, "DDG Bridge (Yahoo backend)"@, 4i64, "DDG_BRIDGE"@, true),
        ("ddg-google"@, "DDG Bridge (Google backend)"@, 5i64, "DDG_BRIDGE"@, true),
        ("ddg-duckduckgo"@, "DDG Bridge (DuckDuckGo backend)"@, 6i64, "DDG_BRIDGE"@, true),
        ("ddg-brave"@, "DDG Bridge (Brave backend)"@, 7i64, "DDG_BRIDGE"@, true),
        ("searxng"@, "SearXNG"@, 8i64, "SEARXNG_INSTANCE"@, false),
        ("brave"@, "Brave Search"@, 9i64, "BRAVE_KEY"@, false),
        ("tavily"@, "Tavily"@, 10i64, "TAVILY_KEY"@, false),
        ("mojeek"@, "Mojeek"@, 11i64, "MOJEEK_KEY"@, false),
        ("serper"@, "Serper (Google)"@, 12i64, "SERPER_KEY"@, false),
    ]
}

/// Whether a definition is the table's entry `e`.
pub open spec fn def_is(d: SeedDef, e: (Seq<char>, Seq<char>, i64, Seq<char>, bool)) -> bool {
    &&& d.slug@ == e.0
    &&& d.name@ == e.1
    &&& d.priority == e.2
    &&& d.key_prefix@ == e.3
    &&& d.no_cache == e.4
}

fn def(slug: &str, name: &str, priority: i64, key_prefix: &str, no_cache: bool) -> (res: SeedDef)
    ensures
        res.slug@ == slug@,
        res.name@ == name@,
        res.priority == priority,
        res.key_prefix@ == key_prefix@,
        res.no_cache == no_cache,
{
    SeedDef {
        slug: to_owned_string(slug),
        name: to_owned_string(name),
        priority,
        key_prefix: to_owned_string(key_prefix),
        no_cache,
    }
}

/// The providers that can be registered, in table order.
pub fn seed_defs() -> (res: Vec<SeedDef>)
    ensures
        res@.len() == seed_table().len(),
        forall|i: int| 0 <= i < res@.len() ==> def_is(#[trigger] res@[i], seed_table()[i]),
{
    let mut v: Vec<SeedDef> = Vec::new();
    v.push(def("ddg-yandex", "DDG Bridge (Yandex backend)", 1, "DDG_BRIDGE", true));
    v.push(def("ddg-mojeek", "DDG Bridge (Mojeek backend)", 2, "DDG_BRIDGE", true));
    v.push(def("ddg-startpage", "DDG Bridge (Startpage backend)", 3, "DDG_BRIDGE", true));
    v.push(def("ddg-yahoo", "DDG Bridge (Yahoo backend)", 4, "DDG_BRIDGE", true));
    v.push(def("ddg-google", "DDG Bridge (Google backend)", 5, "DDG_BRIDGE", true));
    v.push(def("ddg-duckduckgo", "DDG Bridge (DuckDuckGo backend)", 6, "DDG_BRIDGE", true));
    v.push(def("ddg-brave", "DDG Bridge (Brave backend)", 7, "DDG_BRIDGE", true));
    v.push(def("searxng", "SearXNG", 8, "SEARXNG_INSTANCE", false));
    v.push(def("brave", "Brave Search", 9, "BRAVE_KEY", false));
    v.push(def("tavily", "Tavily", 10, "TAVILY_KEY", false));
    v.push(def("mojeek", "Mojeek", 11, "MOJEEK_KEY", false));
    v.push(def("serper", "Serper (Google)", 12, "SERPER_KEY", false));
    v
}

/// The name of the `i`-th key variable of a prefix: `{prefix}_{i}`.
pub open spec fn spec_key_env_name(prefix: Seq<char>, i: nat) -> Seq<char> {
    prefix + "_"@ + spec_decimal(i)
}

/// The name of the `i`-th key variable of a prefix.
pub fn key_env_name(prefix: &str, i: u64) -> (res: String)
    ensures
        res@ == spec_key_env_name(prefix@, i as nat),
{
    let d = decimal(i);
    concat3(prefix, "_", d.as_str())
}

/// The key references of a prefix: the names of the variables, numbered
/// from 1, whose values (in `values`, in order) are not empty.
pub open spec fn spec_configured(prefix: Seq<char>, values: Seq<String>, k: int) -> Seq<Seq<char>>
    decreases k,
{
    if k <= 0 {
        Seq::empty()
    } else if values[k - 1]@.len() > 0 {
        spec_configured(prefix, values, k - 1).push(spec_key_env_name(prefix, k as nat))
    } else {
        spec_configured(prefix, values, k - 1)
    }
}

/// The key references configured for a prefix, given the values of its
/// variables numbered from 1.
pub fn configured_keys(prefix: &str, values: &Vec<String>) -> (res: Vec<String>)
    requires
        values@.len() < u64::MAX,
    ensures
        views(res@) == spec_configured(prefix@, values@, values@.len() as int),
{
    let mut out: Vec<String> = Vec::new();
    let mut i: usize = 0;
    while i < values.len()
        invariant
            i <= values@.len(),
            values@.len() < u64::MAX,
            views(out@) == spec_configured(prefix@, values@, i as int),
        decreases values.len() - i,
    {
        if values[i].unicode_len() > 0 {
            let ghost before = out@;
            let name = key_env_name(prefix, (i + 1) as u64);
            out.push(name);
            proof {
                assert(views(out@) =~= views(before).push(spec_key_env_name(prefix@, (i + 1) as nat)));
            }
        }
        i = i + 1;
    }
    out
}

/// The id registered for a slug among (slug, id) pairs; a later pair for
/// the same slug overrides an earlier one.
pub open spec fn spec_existing_id(existing: Seq<(String, String)>, slug: Seq<char>) -> Option<Seq<char>>
    decreases existing.len(),
{
    if existing.len() == 0 {
        None
    } else if existing.last().0@ == slug {
        Some(existing.last().1@)
    } else {
        spec_existing_id(existing.drop_last(), slug)
    }
}

/// The id of an already registered provider with this slug.
pub fn existing_provider_id(existing: &Vec<(String, String)>, slug: &str) -> (res: Option<String>)
    ensures
        match res {
            Some(id) => spec_existing_id(existing@, slug@) == Some(id@),
            None => spec_existing_id(existing@, slug@) is None,
        },
{
    let mut i: usize = existing.len();
    proof {
        assert(existing@.take(existing@.len() as int) =~= existing@);
    }
    while i > 0
        invariant
            i <= existing@.len(),
            spec_existing_id(existing@, slug@) == spec_existing_id(existing@.take(i as int), slug@),
        decreases i,
    {
        let ghost pre = existing@.take(i as int);
        proof {
            assert(pre.drop_last() =~= existing@.take(i - 1));
            assert(pre.last() == existing@[i - 1]);
        }
        if str_eq(existing[i - 1].0.as_str(), slug) {
            return Some(existing[i - 1].1.clone());
        }
        i = i - 1;
    }
    None
}

/// Whether (provider id, key reference) is among the registered pairs.
pub open spec fn pair_known(pairs: Seq<(String, String)>, provider_id: Seq<char>, key_ref: Seq<char>) -> bool {
    exists|j: int| 0 <= j < pairs.len() && #[trigger] pairs[j].0@ == provider_id && pairs[j].1@ == key_ref
}

/// The keys to register for a provider: each configured reference not yet
/// registered for it, labelled `{slug}-{n}` by its position `n` (from 1)
/// among the configured references.
pub open spec fn spec_keys_to_add(
    slug: Seq<char>,
    provider_id: Seq<char>,
    key_refs: Seq<String>,
    pairs: Seq<(String, String)>,
    k: int,
) -> Seq<(Seq<char>, Seq<char>)>
    decreases k,
{
    if k <= 0 {
        Seq::empty()
    } else {
        let before = spec_keys_to_add(slug, provider_id, key_refs, pairs, k - 1);
        if pair_known(pairs, provider_id, key_refs[k - 1]@) {
            before
        } else {
            before.push((slug + "-"@ + spec_decimal(k as nat), key_refs[k - 1]@))
        }
    }
}

/// The (label, key reference) pairs to register for a provider.
pub fn keys_to_add(
    slug: &str,
    provider_id: &str,
    key_refs: &Vec<String>,
    pairs: &Vec<(String, String)>,
) -> (res: Vec<(String, String)>)
    requires
        key_refs@.len() < u64::MAX,
    ensures
        res@.len() == spec_keys_to_add(slug@, provider_id@, key_refs@, pairs@, key_refs@.len() as int).len(),
        forall|j: int| 0 <= j < res@.len() ==> {
            let e = spec_keys_to_add(slug@, provider_id@, key_refs@, pairs@, key_refs@.len() as int)[j];
            (#[trigger] res@[j]).0@ == e.0 && res@[j].1@ == e.1
        },
{
    let mut out: Vec<(String, String)> = Vec::new();
    let mut i: usize = 0;
    while i < key_refs.len()
        invariant
            i <= key_refs@.len(),
            key_refs@.len() < u64::MAX,
            out@.len() == spec_keys_to_add(slug@, provider_id@, key_refs@, pairs@, i as int).len(),
            forall|j: int| 0 <= j < out@.len() ==> {
                let e = spec_keys_to_add(slug@, provider_id@, key_refs@, pairs@, i as int)[j];
                (#[trigger] out@[j]).0@ == e.0 && out@[j].1@ == e.1
            },
        decreases key_refs.len() - i,
    {
        let key_ref = key_refs[i].as_str();
        let mut known = false;
        let mut j: usize = 0;
        while j < pairs.len()
            invariant
                j <= pairs@.len(),
                known == exists|a: int| 0 <= a < j && #[trigger] pairs@[a].0@ == provider_id@ && pairs@[a].1@ == key_ref@,
            decreases pairs.len() - j,
        {
            if str_eq(pairs[j].0.as_str(), provider_id) && str_eq(pairs[j].1.as_str(), key_ref) {
                known = true;
            }
            j = j + 1;
        }
        if !known {
            let ghost before = out@;
            let n = decimal((i + 1) as u64);
            let label = concat3(slug, "-", n.as_str());
            out.push((label, key_refs[i].clone()));
            proof {
                assert forall|a: int| 0 <= a < out@.len() implies {
                    let e = spec_keys_to_add(slug@, provider_id@, key_refs@, pairs@, i + 1)[a];
                    (#[trigger] out@[a]).0@ == e.0 && out@[a].1@ == e.1
                } by {
                    if a < before.len() {
                        assert(out@[a] == before[a]);
                    }
                }
            }
        }
        i = i + 1;
    }
    out
}

/// What registration does about a definition's provider row.
pub enum ProviderStep {
    /// The provider is already registered under `id`: its row is left as
    /// it is, and its keys are added under that id.
    Existing { id: String },
    /// The provider is not registered yet: register it.
    Register,
}

/// The step for a definition's provider, given the registered (slug, id)
/// pairs: keep the registered provider with its slug untouched, or
/// register a new one.
pub fn provider_step(existing: &Vec<(String, String)>, d: &SeedDef) -> (res: ProviderStep)
    ensures
        match spec_existing_id(existing@, d.slug@) {
            Some(id) => res matches ProviderStep::Existing { id: i } && i@ == id,
            None => res is Register,
        },
{
    match existing_provider_id(existing, d.slug.as_str()) {
        Some(id) => ProviderStep::Existing { id },
        None => ProviderStep::Register,
    }
}

/// The provider row registered for a definition, active, under the id
/// `id`.
pub fn seed_provider(id: String, d: &SeedDef) -> (res: Provider)
    ensures
        res.id == id,
        res.slug@ == d.slug@,
        res.name@ == d.name@,
        res.base_url is None,
        res.is_active,
        res.priority == d.priority,
        res.avg_latency_ms is None,
        res.notes is None,
        res.created_at@.len() == 0,
        res.no_cache == d.no_cache,
{
    Provider {
        id,
        slug: d.slug.clone(),
        name: d.name.clone(),
        base_url: None,
        is_active: true,
        priority: d.priority,
        avg_latency_ms: None,
        notes: None,
        created_at: String::new(),
        no_cache: d.no_cache,
    }
}

/// Registration is idempotent: every key it registers is one not yet
/// registered for the provider, and once every configured reference is
/// registered (as after a first run), it registers nothing more.
pub proof fn law_seeding_is_idempotent(
    slug: Seq<char>,
    provider_id: Seq<char>,
    key_refs: Seq<String>,
    pairs: Seq<(String, String)>,
    k: int,
)
    requires
        0 <= k <= key_refs.len(),
    ensures
        forall|j: int| 0 <= j < spec_keys_to_add(slug, provider_id, key_refs, pairs, k).len()
            ==> !pair_known(pairs, provider_id, #[trigger] spec_keys_to_add(slug, provider_id, key_refs, pairs, k)[j].1),
        (forall|i: int| 0 <= i < k ==> pair_known(pairs, provider_id, #[trigger] key_refs[i]@))
            ==> spec_keys_to_add(slug, provider_id, key_refs, pairs, k).len() == 0,
    decreases k,
{
    if k > 0 {
        law_seeding_is_idempotent(slug, provider_id, key_refs, pairs, k - 1);
        let before = spec_keys_to_add(slug, provider_id, key_refs, pairs, k - 1);
        let now = spec_keys_to_add(slug, provider_id, key_refs, pairs, k);
        if !pair_known(pairs, provider_id, key_refs[k - 1]@) {
            assert forall|j: int| 0 <= j < now.len() implies !pair_known(pairs, provider_id, #[trigger] now[j].1) by {
                if j < before.len() {
                    assert(now[j] == before[j]);
                }
            }
        }
        if forall|i: int| 0 <= i < k ==> pair_known(pairs, provider_id, #[trigger] key_refs[i]@) {
            assert(pair_known(pairs, provider_id, key_refs[k - 1]@));
        }
    }
}

} // verus!
