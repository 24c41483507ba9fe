//! In-memory search statistics over sliding windows.

use vstd::prelude::*;
use std::collections::VecDeque;
use crate::text::{str_eq, to_owned_string};

verus! {

/// One finished search attempt.
#[derive(Debug)]
pub struct SearchEvent {
    pub at_ms: u64,
    pub provider: String,
    pub is_error: bool,
    pub duration_ms: u64,
}

/// How long events are kept, in milliseconds (24 hours).
pub open spec fn retention_ms() -> u64 {
    86_400_000
}

/// The cutoff of a window of `window_secs` ending at `now`.
pub open spec fn stats_cutoff(now: u64, window_secs: u64) -> u64 {
    if window_secs * 1000 > u64::MAX {
        0
    } else if now >= window_secs * 1000 {
        (now - window_secs * 1000) as u64
    } else {
        0
    }
}

/// Drops the leading events recorded before `cutoff`.
pub open spec fn prune_events(events: Seq<SearchEvent>, cutoff: u64) -> Seq<SearchEvent>
    decreases events.len(),
{
    if events.len() > 0 && events[0].at_ms < cutoff {
        prune_events(events.drop_first(), cutoff)
    } else {
        events
    }
}

/// The events recorded at or after `cutoff`.
pub open spec fn in_window(events: Seq<SearchEvent>, cutoff: u64) -> Seq<SearchEvent> {
    events.filter(|e: SearchEvent| e.at_ms >= cutoff)
}

/// Searches and errors of a window.
#[derive(Debug, Clone, Copy, PartialEq, Eq, Structural)]
pub struct WindowStats {
    pub searches: i64,
    pub errors: i64,
}

/// Searches, errors and average latency of one provider over a window.
#[derive(Debug, Clone)]
pub struct ProviderStats {
    pub slug: String,
    pub searches: i64,
    pub errors: i64,
    pub avg_latency_ms: Option<i64>,
}

/// Per-provider totals over a sequence of events, in order of each
/// provider's first event: (slug, searches, errors, summed latency).
pub open spec fn totals(events: Seq<SearchEvent>) -> Seq<(Seq<char>, int, int, int)>
    decreases events.len(),
{
    if events.len() == 0 {
        Seq::empty()
    } else {
        let before = totals(events.drop_last());
        let e = events.last();
        let err: int = if e.is_error { 1 } else { 0 };
        let lat: int = e.duration_ms as i64 as int;
        match slug_position(before, e.provider@) {
            Some(j) => before.update(j, (e.provider@, before[j].1 + 1, before[j].2 + err, before[j].3 + lat)),
            None => before.push((e.provider@, 1, err, lat)),
        }
    }
}

/// Where `slug` stands among the totals.
pub open spec fn slug_position(t: Seq<(Seq<char>, int, int, int)>, slug: Seq<char>) -> Option<int>
    decreases t.len(),
{
    if t.len() == 0 {
        None
    } else if t.last().0 == slug {
        Some(t.len() - 1)
    } else {
        slug_position(t.drop_last(), slug)
    }
}

/// Records searches and answers counts over recent windows.
pub struct StatsTracker {
    events: VecDeque<SearchEvent>,
}

impl View for StatsTracker {
    type V = Seq<SearchEvent>;

    closed spec fn view(&self) -> Seq<SearchEvent> {
        self.events@
    }
}

impl StatsTracker {
    pub fn new() -> (res: StatsTracker)
        ensures
            res@ == Seq::<SearchEvent>::empty(),
    {
        StatsTracker { events: VecDeque::new() }
    }

    /// Records one search of `provider` at `now`, then forgets the leading
    /// events older than 24 hours.
    pub fn record_search(&mut self, provider: &str, is_error: bool, duration_ms: u64, now: u64)
        ensures
            exists|e: SearchEvent| #![trigger old(self)@.push(e)] e.at_ms == now && e.provider@ == provider@ && e.is_error == is_error
                && e.duration_ms == duration_ms
                && final(self)@ == prune_events(old(self)@.push(e), if now >= retention_ms() {
                    (now - retention_ms()) as u64
                } else {
                    0
                }),
    {
        let e = SearchEvent { at_ms: now, provider: to_owned_string(provider), is_error, duration_ms };
        let ghost ev = e;
        self.events.push_back(e);
        let cutoff: u64 = if now >= 86_400_000 { now - 86_400_000 } else { 0 };
        let ghost pushed = self.events@;
        loop
            invariant
                prune_events(self.events@, cutoff) == prune_events(pushed, cutoff),
            ensures
                self.events@ == prune_events(pushed, cutoff),
            decreases self.events@.len(),
        {
            if self.events.len() == 0 {
                break;
            }
            if self.events[0].at_ms < cutoff {
                proof {
                    assert(self.events@.drop_first() == self.events@.subrange(1, self.events@.len() as int));
                }
                self.events.pop_front();
            } else {
                break;
            }
        }
        assert(pushed == old(self)@.push(ev));
        assert(ev.at_ms == now && ev.provider@ == provider@ && ev.is_error == is_error
            && ev.duration_ms == duration_ms
            && self@ == prune_events(old(self)@.push(ev), cutoff));
    }

    /// Searches and errors recorded at or after `window_secs` before `now`.
    pub fn window_stats(&self, window_secs: u64, now: u64) -> (res: WindowStats)
        ensures
            res.searches == in_window(self@, stats_cutoff(now, window_secs)).len() as i64,
            res.errors == in_window(self@, stats_cutoff(now, window_secs)).filter(|e: SearchEvent| e.is_error).len() as i64,
    {
        let cutoff = Self::cutoff(now, window_secs);
        let ghost w = in_window(self@, cutoff);
        let mut searches: usize = 0;
        let mut errors: usize = 0;
        let mut i: usize = 0;
        let n = self.events.len();
        proof { reveal(Seq::filter); }
        while i < n
            invariant
                n == self@.len(),
                i <= n,
                searches == in_window(self@.take(i as int), cutoff).len(),
                errors == in_window(self@.take(i as int), cutoff).filter(|e: SearchEvent| e.is_error).len(),
                searches <= i,
                errors <= searches,
            decreases n - i,
        {
            let e = &self.events[i];
            proof {
                reveal(Seq::filter);
                assert(self@.take(i + 1).drop_last() =~= self@.take(i as int));
                assert(self@.take(i + 1).last() == *e);
                let w0 = in_window(self@.take(i as int), cutoff);
                if e.at_ms >= cutoff {
                    assert(in_window(self@.take(i + 1), cutoff) == w0.push(*e));
                    assert(w0.push(*e).drop_last() =~= w0);
                }
            }
            if e.at_ms >= cutoff {
                searches = searches + 1;
                if e.is_error {
                    errors = errors + 1;
                }
            }
            i = i + 1;
        }
        proof {
            assert(self@.take(n as int) =~= self@);
        }
        WindowStats { searches: searches as i64, errors: errors as i64 }
    }

    fn cutoff(now: u64, window_secs: u64) -> (res: u64)
        ensures
            res == stats_cutoff(now, window_secs),
    {
        match window_secs.checked_mul(1000) {
            Some(w) => if now >= w { now - w } else { 0 },
            None => 0,
        }
    }

    /// Per-provider searches, errors and average latency (summed latency
    /// divided by searches, rounded toward zero) over the events at or after
    /// `window_secs` before `now`, one entry per provider in the order of its
    /// first event in the window.
    pub fn by_provider_stats(&self, window_secs: u64, now: u64) -> (res: Vec<ProviderStats>)
        ensures
            res@.len() == totals(in_window(self@, stats_cutoff(now, window_secs))).len(),
            forall|j: int| 0 <= j < res@.len() ==> {
                let t = totals(in_window(self@, stats_cutoff(now, window_secs)))[j];
                &&& (#[trigger] res@[j]).slug@ == t.0
                &&& res@[j].searches == t.1 as i64
                &&& res@[j].errors == t.2 as i64
                &&& res@[j].avg_latency_ms == Some(trunc_div(t.3, t.1) as i64)
            },
            forall|a: int, b: int| 0 <= a < b < res@.len() ==> res@[a].slug@ != res@[b].slug@,
            in_window(self@, stats_cutoff(now, window_secs)).len() <= i64::MAX ==> forall|j: int| 0 <= j < res@.len()
                ==> 1 <= (#[trigger] res@[j]).searches && 0 <= res@[j].errors <= res@[j].searches,
    {
        proof { law_totals_distinct_and_bounded(in_window(self@, stats_cutoff(now, window_secs))); }
        let cutoff = Self::cutoff(now, window_secs);
        let mut slugs: Vec<String> = Vec::new();
        let mut counts: Vec<u64> = Vec::new();
        let mut errs: Vec<u64> = Vec::new();
        let mut sums: Vec<i128> = Vec::new();
        let n = self.events.len();
        let mut i: usize = 0;
        while i < n
            invariant
                n == self@.len(),
                i <= n,
                slugs@.len() == counts@.len() == errs@.len() == sums@.len(),
                slugs@.len() == totals(in_window(self@.take(i as int), cutoff)).len(),
                forall|j: int| 0 <= j < slugs@.len() ==> {
                    let t = #[trigger] totals(in_window(self@.take(i as int), cutoff))[j];
                    &&& slugs@[j]@ == t.0
                    &&& counts@[j] == t.1
                    &&& errs@[j] == t.2
                    &&& sums@[j] == t.3
                    &&& 1 <= counts@[j] <= i
                    &&& errs@[j] <= counts@[j]
                    &&& -(counts@[j] as int) * 9223372036854775808 <= sums@[j] <= (counts@[j] as int) * 9223372036854775807
                },
            decreases n - i,
        {
            let e = &self.events[i];
            let ghost w0 = in_window(self@.take(i as int), cutoff);
            let ghost t0 = totals(w0);
            proof {
                reveal(Seq::filter);
                assert(self@.take(i + 1).drop_last() =~= self@.take(i as int));
                assert(self@.take(i + 1).last() == *e);
            }
            if e.at_ms >= cutoff {
                proof {
                    assert(in_window(self@.take(i + 1), cutoff) == w0.push(*e));
                    assert(w0.push(*e).drop_last() =~= w0);
                    assert(w0.push(*e).last() == *e);
                }
                let lat: i128 = (e.duration_ms as i64) as i128;
                let err: u64 = if e.is_error { 1 } else { 0 };
                let ghost t1 = totals(in_window(self@.take(i + 1), cutoff));
                let ghost pos = slug_position(t0, e.provider@);
                proof {
                    lemma_slug_position(t0, e.provider@);
                    assert(t1 == totals(w0.push(*e)));
                }
                match Self::find_slug(&slugs, e.provider.as_str(), Ghost(t0)) {
                    Some(j) => {
                        assert(t0[j as int] == t0[j as int]);
                        let c = counts[j] + 1;
                        let r = errs[j] + err;
                        let s = sums[j] + lat;
                        counts.set(j, c);
                        errs.set(j, r);
                        sums.set(j, s);
                        proof {
                            assert(t1 == t0.update(j as int, (e.provider@, t0[j as int].1 + 1, t0[j as int].2 + err, t0[j as int].3 + lat)));
                            assert forall|k: int| 0 <= k < slugs@.len() implies {
                                let t = #[trigger] t1[k];
                                &&& slugs@[k]@ == t.0
                                &&& counts@[k] == t.1
                                &&& errs@[k] == t.2
                                &&& sums@[k] == t.3
                                &&& 1 <= counts@[k] <= i + 1
                                &&& errs@[k] <= counts@[k]
                                &&& -(counts@[k] as int) * 9223372036854775808 <= sums@[k] <= (counts@[k] as int) * 9223372036854775807
                            } by {
                                assert(t0[k] == t0[k]);
                            }
                        }
                    },
                    None => {
                        slugs.push(e.provider.clone());
                        counts.push(1);
                        errs.push(err);
                        sums.push(lat);
                        proof {
                            assert(t1 == t0.push((e.provider@, 1int, err as int, lat as int)));
                            assert forall|k: int| 0 <= k < slugs@.len() implies {
                                let t = #[trigger] t1[k];
                                &&& slugs@[k]@ == t.0
                                &&& counts@[k] == t.1
                                &&& errs@[k] == t.2
                                &&& sums@[k] == t.3
                                &&& 1 <= counts@[k] <= i + 1
                                &&& errs@[k] <= counts@[k]
                                &&& -(counts@[k] as int) * 9223372036854775808 <= sums@[k] <= (counts@[k] as int) * 9223372036854775807
                            } by {
                                if k < t0.len() {
                                    assert(t0[k] == t0[k]);
                                }
                            }
                        }
                    },
                }
            } else {
                proof {
                    assert(in_window(self@.take(i + 1), cutoff) == w0);
                }
            }
            i = i + 1;
        }
        proof {
            assert(self@.take(n as int) =~= self@);
        }
        let mut out: Vec<ProviderStats> = Vec::new();
        let mut j: usize = 0;
        let ghost t = totals(in_window(self@, cutoff));
        while j < slugs.len()
            invariant
                j <= slugs@.len(),
                slugs@.len() == counts@.len() == errs@.len() == sums@.len(),
                slugs@.len() == t.len(),
                t == totals(in_window(self@, cutoff)),
                out@.len() == j,
                forall|k: int| 0 <= k < slugs@.len() ==> {
                    let tk = #[trigger] t[k];
                    &&& slugs@[k]@ == tk.0
                    &&& counts@[k] == tk.1
                    &&& errs@[k] == tk.2
                    &&& sums@[k] == tk.3
                    &&& 1 <= counts@[k] <= n
                    &&& errs@[k] <= counts@[k]
                    &&& -(counts@[k] as int) * 9223372036854775808 <= sums@[k] <= (counts@[k] as int) * 9223372036854775807
                },
                forall|k: int| 0 <= k < j ==> {
                    let tk = t[k];
                    &&& (#[trigger] out@[k]).slug@ == tk.0
                    &&& out@[k].searches == tk.1 as i64
                    &&& out@[k].errors == tk.2 as i64
                    &&& out@[k].avg_latency_ms == Some(trunc_div(tk.3, tk.1) as i64)
                },
            decreases slugs.len() - j,
        {
            assert(t[j as int] == t[j as int]);
            let c = counts[j];
            let s = sums[j];
            let avg = Self::average(s, c);
            out.push(ProviderStats {
                slug: slugs[j].clone(),
                searches: c as i64,
                errors: errs[j] as i64,
                avg_latency_ms: Some(avg),
            });
            j = j + 1;
        }
        out
    }

    /// `sum / count`, rounded toward zero.
    fn average(sum: i128, count: u64) -> (res: i64)
        requires
            count >= 1,
            -(count as int) * 9223372036854775808 <= sum <= (count as int) * 9223372036854775807,
        ensures
            res == trunc_div(sum as int, count as int) as i64,
    {
        if sum >= 0 {
            let q: u128 = (sum as u128) / (count as u128);
            proof {
                lemma_div_bound(sum as int, count as int, 9223372036854775807);
            }
            q as i64
        } else {
            let m: u128 = (-sum) as u128;
            let q: u128 = m / (count as u128);
            proof {
                lemma_div_bound(-sum as int, count as int, 9223372036854775808);
            }
            let neg: i128 = -(q as i128);
            neg as i64
        }
    }

    /// The position of `slug` among `slugs`, searching from the end.
    fn find_slug(slugs: &Vec<String>, slug: &str, Ghost(t): Ghost<Seq<(Seq<char>, int, int, int)>>) -> (res: Option<usize>)
        requires
            slugs@.len() == t.len(),
            forall|j: int| 0 <= j < t.len() ==> slugs@[j]@ == (#[trigger] t[j]).0,
        ensures
            res matches Some(j) ==> slug_position(t, slug@) == Some(j as int) && j < t.len(),
            res is None ==> slug_position(t, slug@) is None,
    {
        let mut k: usize = slugs.len();
        assert(t.take(t.len() as int) =~= t);
        while k > 0
            invariant
                k <= t.len(),
                slugs@.len() == t.len(),
                forall|j: int| 0 <= j < t.len() ==> slugs@[j]@ == (#[trigger] t[j]).0,
                slug_position(t, slug@) == slug_position(t.take(k as int), slug@),
            decreases k,
        {
            let ghost tk = t.take(k as int);
            assert(tk.last() == t[k - 1]);
            assert(tk.drop_last() =~= t.take(k - 1));
            if str_eq(slugs[k - 1].as_str(), slug) {
                return Some(k - 1);
            }
            k = k - 1;
        }
        None
    }
}

/// `a / b` rounded toward zero, for positive `b`.
pub open spec fn trunc_div(a: int, b: int) -> int {
    if a >= 0 {
        a / b
    } else {
        -((-a) / b)
    }
}

proof fn lemma_div_bound(a: int, b: int, k: int)
    requires
        0 <= a <= b * k,
        b >= 1,
        k >= 0,
    ensures
        0 <= a / b <= k,
{
    assert(0 <= a / b <= k) by (nonlinear_arith)
        requires
            0 <= a <= b * k,
            b >= 1,
            k >= 0;
}


proof fn lemma_slug_position(t: Seq<(Seq<char>, int, int, int)>, slug: Seq<char>)
    ensures
        slug_position(t, slug) matches Some(j) ==> 0 <= j < t.len() && t[j].0 == slug,
        slug_position(t, slug) is None ==> forall|j: int| 0 <= j < t.len() ==> t[j].0 != slug,
    decreases t.len(),
{
    if t.len() > 0 && t.last().0 != slug {
        lemma_slug_position(t.drop_last(), slug);
        assert forall|j: int| 0 <= j < t.len() - 1 implies t[j] == t.drop_last()[j] by {}
    }
}

/// The per-provider totals of a list of events name each provider once,
/// and each has at least one and at most as many searches as there are
/// events, and no more errors than searches.
pub proof fn law_totals_distinct_and_bounded(events: Seq<SearchEvent>)
    ensures
        forall|a: int, b: int| 0 <= a < b < totals(events).len() ==> totals(events)[a].0 != totals(events)[b].0,
        forall|j: int| 0 <= j < totals(events).len() ==> {
            let t = #[trigger] totals(events)[j];
            &&& 1 <= t.1 <= events.len()
            &&& 0 <= t.2 <= t.1
        },
    decreases events.len(),
{
    if events.len() > 0 {
        let before = totals(events.drop_last());
        let e = events.last();
        law_totals_distinct_and_bounded(events.drop_last());
        lemma_slug_position(before, e.provider@);
        let t = totals(events);
        assert forall|j: int| 0 <= j < before.len() implies {
            let x = #[trigger] before[j];
            &&& 1 <= x.1 <= events.len() - 1
            &&& 0 <= x.2 <= x.1
        } by {}
    }
}

/// The cutoff before which events are forgotten after a record at `now`.
pub open spec fn retention_cutoff(now: u64) -> u64 {
    if now >= retention_ms() { (now - retention_ms()) as u64 } else { 0 }
}

/// The searches and errors of `slug` among the totals, (0, 0) when it has
/// none.
pub open spec fn provider_total(t: Seq<(Seq<char>, int, int, int)>, slug: Seq<char>) -> (int, int) {
    match slug_position(t, slug) {
        Some(j) => (t[j].1, t[j].2),
        None => (0, 0),
    }
}

proof fn lemma_window_ignores_pruned(events: Seq<SearchEvent>, r: u64, c: u64)
    requires
        r <= c,
    ensures
        in_window(prune_events(events, r), c) == in_window(events, c),
    decreases events.len(),
{
    reveal(Seq::filter);
    if events.len() > 0 && events[0].at_ms < r {
        lemma_window_ignores_pruned(events.drop_first(), r, c);
        lemma_filter_drops_first(events, c);
    }
}

proof fn lemma_filter_drops_first(events: Seq<SearchEvent>, c: u64)
    requires
        events.len() > 0,
        events[0].at_ms < c,
    ensures
        in_window(events.drop_first(), c) == in_window(events, c),
    decreases events.len(),
{
    reveal(Seq::filter);
    if events.len() == 1 {
        assert(events.drop_first() =~= Seq::<SearchEvent>::empty());
        assert(events.drop_last() =~= Seq::<SearchEvent>::empty());
    } else {
        lemma_filter_drops_first(events.drop_last(), c);
        assert(events.drop_first().drop_last() =~= events.drop_last().drop_first());
        assert(events.drop_first().last() == events.last());
    }
}

proof fn lemma_slug_position_last(t: Seq<(Seq<char>, int, int, int)>, slug: Seq<char>)
    ensures
        slug_position(t, slug) matches Some(j) ==> forall|k: int| j < k < t.len() ==> t[k].0 != slug,
    decreases t.len(),
{
    if t.len() > 0 && t.last().0 != slug {
        lemma_slug_position_last(t.drop_last(), slug);
        lemma_slug_position(t, slug);
        if let Some(j) = slug_position(t, slug) {
            assert forall|k: int| j < k < t.len() implies t[k].0 != slug by {
                if k < t.len() - 1 {
                    assert(t[k] == t.drop_last()[k]);
                }
            }
        }
    }
}

proof fn lemma_slug_position_update(t: Seq<(Seq<char>, int, int, int)>, j: int, x: (Seq<char>, int, int, int))
    requires
        slug_position(t, x.0) == Some(j),
        0 <= j < t.len(),
    ensures
        slug_position(t.update(j, x), x.0) == Some(j),
    decreases t.len(),
{
    lemma_slug_position_last(t, x.0);
    if j < t.len() - 1 {
        assert(t.last().0 != x.0);
        assert(t.update(j, x).last() == t.last());
        assert(t.update(j, x).drop_last() =~= t.drop_last().update(j, x));
        assert(slug_position(t.drop_last(), x.0) == Some(j));
        lemma_slug_position_update(t.drop_last(), j, x);
    }
}

/// A recorded search counts once: asked at the same instant, over a window
/// that holds the new search and reaches no further back than what the
/// record forgets, the window has one more search (and one more error when
/// the search failed) than before the record, and so has the provider's
/// entry among the per-provider totals.
pub proof fn law_record_search_counts_once(events: Seq<SearchEvent>, e: SearchEvent, cutoff: u64)
    requires
        retention_cutoff(e.at_ms) <= cutoff <= e.at_ms,
    ensures
        ({
            let before = in_window(events, cutoff);
            let after = in_window(prune_events(events.push(e), retention_cutoff(e.at_ms)), cutoff);
            let err: int = if e.is_error { 1 } else { 0 };
            &&& after.len() == before.len() + 1
            &&& after.filter(|x: SearchEvent| x.is_error).len() == before.filter(|x: SearchEvent| x.is_error).len() + err
            &&& provider_total(totals(after), e.provider@) == (
                provider_total(totals(before), e.provider@).0 + 1,
                provider_total(totals(before), e.provider@).1 + err,
            )
        }),
{
    reveal(Seq::filter);
    let pushed = events.push(e);
    lemma_window_ignores_pruned(pushed, retention_cutoff(e.at_ms), cutoff);
    let before = in_window(events, cutoff);
    let after = in_window(pushed, cutoff);
    assert(pushed.drop_last() =~= events);
    assert(after == before.push(e));
    assert(before.push(e).drop_last() =~= before);
    let t0 = totals(before);
    lemma_slug_position(t0, e.provider@);
    let err: int = if e.is_error { 1 } else { 0 };
    let lat: int = e.duration_ms as i64 as int;
    match slug_position(t0, e.provider@) {
        Some(j) => {
            let x = (e.provider@, t0[j].1 + 1, t0[j].2 + err, t0[j].3 + lat);
            assert(totals(after) == t0.update(j, x));
            lemma_slug_position_update(t0, j, x);
        },
        None => {
            let x = (e.provider@, 1int, err, lat);
            assert(totals(after) == t0.push(x));
            assert(t0.push(x).last() == x);
        },
    }
}

/// The searches of all providers together.
pub open spec fn searches_total(t: Seq<(Seq<char>, int, int, int)>) -> int
    decreases t.len(),
{
    if t.len() == 0 {
        0
    } else {
        searches_total(t.drop_last()) + t.last().1
    }
}

/// The errors of all providers together.
pub open spec fn errors_total(t: Seq<(Seq<char>, int, int, int)>) -> int
    decreases t.len(),
{
    if t.len() == 0 {
        0
    } else {
        errors_total(t.drop_last()) + t.last().2
    }
}

proof fn lemma_totals_update(t: Seq<(Seq<char>, int, int, int)>, j: int, x: (Seq<char>, int, int, int))
    requires
        0 <= j < t.len(),
    ensures
        searches_total(t.update(j, x)) == searches_total(t) - t[j].1 + x.1,
        errors_total(t.update(j, x)) == errors_total(t) - t[j].2 + x.2,
    decreases t.len(),
{
    if j == t.len() - 1 {
        assert(t.update(j, x).drop_last() =~= t.drop_last());
    } else {
        lemma_totals_update(t.drop_last(), j, x);
        assert(t.update(j, x).drop_last() =~= t.drop_last().update(j, x));
    }
}

/// The per-provider stats of a window add up to the window's stats: every
/// search and every error is counted for exactly one provider.
pub proof fn law_provider_totals_add_up(events: Seq<SearchEvent>)
    ensures
        searches_total(totals(events)) == events.len(),
        errors_total(totals(events)) == events.filter(|e: SearchEvent| e.is_error).len(),
    decreases events.len(),
{
    reveal(Seq::filter);
    if events.len() > 0 {
        let before = totals(events.drop_last());
        let e = events.last();
        law_provider_totals_add_up(events.drop_last());
        lemma_slug_position(before, e.provider@);
        let err: int = if e.is_error { 1 } else { 0 };
        let lat: int = e.duration_ms as i64 as int;
        match slug_position(before, e.provider@) {
            Some(j) => {
                lemma_totals_update(before, j, (e.provider@, before[j].1 + 1, before[j].2 + err, before[j].3 + lat));
            },
            None => {
                let x = (e.provider@, 1int, err, lat);
                assert(before.push(x).drop_last() =~= before);
            },
        }
    }
}

} // verus!
