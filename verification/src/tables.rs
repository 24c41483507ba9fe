//! Concurrent hash tables from the `dashmap` crate, seen by the verified code
//! through the maps that they hold. Each table kind has its own name for its
//! contents; the wrappers below state, over those names, what each `DashMap`
//! method does. Keys are `String`s, whose equality is equality of contents,
//! so a table's contents are a map from character sequences.

use vstd::prelude::*;
use dashmap::DashMap;
use crate::cache::{fresh_docs, fresh_entries, CacheEntry, CacheEntryView, DocEntry, DocEntryView};
use crate::rate_limit::{Cooldown, KeyUsage};

verus! {

#[verifier::external_type_specification]
#[verifier::external_body]
#[verifier::reject_recursive_types(K)]
#[verifier::reject_recursive_types(V)]
#[verifier::reject_recursive_types(S)]
pub struct ExDashMap<K, V, S>(DashMap<K, V, S>);

// ---------------------------------------------------------------------------
// Cooldown tables: key id -> cooldown
// ---------------------------------------------------------------------------

/// What a cooldown table holds.
pub uninterp spec fn cooldown_entries(m: DashMap<String, Cooldown>) -> Map<Seq<char>, Cooldown>;

/// Trusted: `DashMap::new` creates an empty map.
#[verifier::external_body]
pub(crate) fn cooldowns_new() -> (res: DashMap<String, Cooldown>)
    ensures
        cooldown_entries(res) =~= Map::empty(),
{
    DashMap::new()
}

/// Trusted: `DashMap::get` finds the entry stored under a key equal to `key`;
/// the stored value is copied out of the guard it returns.
#[verifier::external_body]
pub(crate) fn cooldowns_get(m: &DashMap<String, Cooldown>, key: &str) -> (res: Option<Cooldown>)
    ensures
        res == (if cooldown_entries(*m).contains_key(key@) {
            Some(cooldown_entries(*m)[key@])
        } else {
            None
        }),
{
    m.get(key).map(|r| *r.value())
}

/// Trusted: `DashMap::insert` stores `value` under `key`, replacing any
/// previous value.
#[verifier::external_body]
pub(crate) fn cooldowns_insert(m: &mut DashMap<String, Cooldown>, key: String, value: Cooldown)
    ensures
        cooldown_entries(*final(m)) == cooldown_entries(*old(m)).insert(key@, value),
{
    m.insert(key, value);
}

// ---------------------------------------------------------------------------
// Usage tables: key id -> sliding-window usage
// ---------------------------------------------------------------------------

/// What a usage table holds.
pub uninterp spec fn usage_entries(m: DashMap<String, KeyUsage>) -> Map<Seq<char>, KeyUsage>;

/// Trusted: `DashMap::new` creates an empty map.
#[verifier::external_body]
pub(crate) fn usages_new() -> (res: DashMap<String, KeyUsage>)
    ensures
        usage_entries(res) =~= Map::empty(),
{
    DashMap::new()
}

/// Trusted: `DashMap::insert` stores `value` under `key`, replacing any
/// previous value.
#[verifier::external_body]
pub(crate) fn usages_insert(m: &mut DashMap<String, KeyUsage>, key: String, value: KeyUsage)
    ensures
        usage_entries(*final(m)) == usage_entries(*old(m)).insert(key@, value),
{
    m.insert(key, value);
}

/// Trusted: `DashMap::remove` takes out the entry stored under a key equal
/// to `key`, if any, and hands its value back.
#[verifier::external_body]
pub(crate) fn usages_remove(m: &mut DashMap<String, KeyUsage>, key: &str) -> (res: Option<KeyUsage>)
    ensures
        usage_entries(*final(m)) == usage_entries(*old(m)).remove(key@),
        res == (if usage_entries(*old(m)).contains_key(key@) {
            Some(usage_entries(*old(m))[key@])
        } else {
            None
        }),
{
    m.remove(key).map(|(_, v)| v)
}

// ---------------------------------------------------------------------------
// Query cache tables: cache key -> cached results
// ---------------------------------------------------------------------------

/// What a query cache table holds.
pub uninterp spec fn query_entries(m: DashMap<String, CacheEntry>) -> Map<Seq<char>, CacheEntryView>;

/// Trusted: `DashMap::new` creates an empty map.
#[verifier::external_body]
pub(crate) fn queries_new() -> (res: DashMap<String, CacheEntry>)
    ensures
        query_entries(res) =~= Map::empty(),
{
    DashMap::new()
}

/// Trusted: `DashMap::get` finds the entry stored under a key equal to `key`;
/// the entry is copied out of the guard it returns.
#[verifier::external_body]
pub(crate) fn queries_get(m: &DashMap<String, CacheEntry>, key: &str) -> (res: Option<CacheEntry>)
    ensures
        match res {
            Some(e) => query_entries(*m).contains_key(key@) && e@ == query_entries(*m)[key@],
            None => !query_entries(*m).contains_key(key@),
        },
{
    m.get(key).map(|r| r.value().copy())
}

/// Trusted: `DashMap::insert` stores `value` under `key`, replacing any
/// previous value.
#[verifier::external_body]
pub(crate) fn queries_insert(m: &mut DashMap<String, CacheEntry>, key: String, value: CacheEntry)
    ensures
        query_entries(*final(m)) == query_entries(*old(m)).insert(key@, value@),
{
    m.insert(key, value);
}

/// Trusted: `DashMap::remove` takes out the entry stored under a key equal
/// to `key`, if any.
#[verifier::external_body]
pub(crate) fn queries_remove(m: &mut DashMap<String, CacheEntry>, key: &str)
    ensures
        query_entries(*final(m)) == query_entries(*old(m)).remove(key@),
{
    m.remove(key);
}

/// Trusted: `DashMap::retain` keeps exactly the entries for which the
/// closure answers true; here, those still fresh at `now`.
#[verifier::external_body]
pub(crate) fn queries_retain_fresh(m: &mut DashMap<String, CacheEntry>, now: u64)
    ensures
        query_entries(*final(m)) == fresh_entries(query_entries(*old(m)), now),
{
    m.retain(|_, v| v.is_fresh(now));
}

/// Trusted: `DashMap::len` counts the entries.
#[verifier::external_body]
pub(crate) fn queries_len(m: &DashMap<String, CacheEntry>) -> (res: usize)
    ensures
        res == query_entries(*m).len(),
{
    m.len()
}

/// Trusted: `DashMap::is_empty` tells whether there is no entry.
#[verifier::external_body]
pub(crate) fn queries_is_empty(m: &DashMap<String, CacheEntry>) -> (res: bool)
    ensures
        res == (query_entries(*m).len() == 0),
{
    m.is_empty()
}

// ---------------------------------------------------------------------------
// Document cache tables: normalized URL -> page content
// ---------------------------------------------------------------------------

/// What a document cache table holds.
pub uninterp spec fn doc_entries(m: DashMap<String, DocEntry>) -> Map<Seq<char>, DocEntryView>;

/// Trusted: `DashMap::new` creates an empty map.
#[verifier::external_body]
pub(crate) fn docs_new() -> (res: DashMap<String, DocEntry>)
    ensures
        doc_entries(res) =~= Map::empty(),
{
    DashMap::new()
}

/// Trusted: `DashMap::get` finds the entry stored under a key equal to `key`;
/// the entry is copied out of the guard it returns.
#[verifier::external_body]
pub(crate) fn docs_get(m: &DashMap<String, DocEntry>, key: &str) -> (res: Option<DocEntry>)
    ensures
        match res {
            Some(e) => doc_entries(*m).contains_key(key@) && e@ == doc_entries(*m)[key@],
            None => !doc_entries(*m).contains_key(key@),
        },
{
    m.get(key).map(|r| r.value().copy())
}

/// Trusted: `DashMap::insert` stores `value` under `key`, replacing any
/// previous value.
#[verifier::external_body]
pub(crate) fn docs_insert(m: &mut DashMap<String, DocEntry>, key: String, value: DocEntry)
    ensures
        doc_entries(*final(m)) == doc_entries(*old(m)).insert(key@, value@),
{
    m.insert(key, value);
}

/// Trusted: `DashMap::remove` takes out the entry stored under a key equal
/// to `key`, if any.
#[verifier::external_body]
pub(crate) fn docs_remove(m: &mut DashMap<String, DocEntry>, key: &str)
    ensures
        doc_entries(*final(m)) == doc_entries(*old(m)).remove(key@),
{
    m.remove(key);
}

/// Trusted: `DashMap::retain` keeps exactly the entries for which the
/// closure answers true; here, those still fresh at `now`.
#[verifier::external_body]
pub(crate) fn docs_retain_fresh(m: &mut DashMap<String, DocEntry>, now: u64)
    ensures
        doc_entries(*final(m)) == fresh_docs(doc_entries(*old(m)), now),
{
    m.retain(|_, v| v.is_fresh(now));
}

/// Trusted: `DashMap::len` counts the entries.
#[verifier::external_body]
pub(crate) fn docs_len(m: &DashMap<String, DocEntry>) -> (res: usize)
    ensures
        res == doc_entries(*m).len(),
{
    m.len()
}

/// Trusted: `DashMap::is_empty` tells whether there is no entry.
#[verifier::external_body]
pub(crate) fn docs_is_empty(m: &DashMap<String, DocEntry>) -> (res: bool)
    ensures
        res == (doc_entries(*m).len() == 0),
{
    m.is_empty()
}

} // verus!
