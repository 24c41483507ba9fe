//! Reactive cooldowns per API key, and proactive sliding-window usage
//! budgets (per second, minute, five minutes and day).
//!
//! Time is a count of milliseconds on a clock that the caller reads and
//! hands in as `now_ms`.

use vstd::prelude::*;
use std::collections::VecDeque;
use dashmap::DashMap;
use crate::tables::{
    cooldown_entries, cooldowns_get, cooldowns_insert, cooldowns_new, usage_entries, usages_insert,
    usages_new, usages_remove,
};

verus! {

/// Why a key is put on cooldown.
#[derive(Debug, Clone, Copy, PartialEq, Eq, Structural)]
pub enum ErrorType {
    Rps,
    Rpm,
    Rpd,
    Auth,
    Timeout,
    Empty,
    Error,
}

impl ErrorType {
    pub open spec fn spec_cooldown_secs(self) -> u64 {
        match self {
            ErrorType::Rps => 5,
            ErrorType::Rpm => 60,
            ErrorType::Rpd => 3600,
            ErrorType::Auth => 300,
            ErrorType::Timeout => 30,
            ErrorType::Empty => 10,
            ErrorType::Error => 60,
        }
    }

    /// How long a key stays blocked after an error of this kind.
    #[verifier::when_used_as_spec(spec_cooldown_secs)]
    pub fn cooldown_secs(self) -> (res: u64)
        ensures
            res == self.spec_cooldown_secs(),
    {
        match self {
            ErrorType::Rps => 5,
            ErrorType::Rpm => 60,
            ErrorType::Rpd => 3600,
            ErrorType::Auth => 300,
            ErrorType::Timeout => 30,
            ErrorType::Empty => 10,
            ErrorType::Error => 60,
        }
    }

    pub open spec fn spec_name(self) -> Seq<char> {
        match self {
            ErrorType::Rps => seq!['r', 'p', 's'],
            ErrorType::Rpm => seq!['r', 'p', 'm'],
            ErrorType::Rpd => seq!['r', 'p', 'd'],
            ErrorType::Auth => seq!['a', 'u', 't', 'h'],
            ErrorType::Timeout => seq!['t', 'i', 'm', 'e', 'o', 'u', 't'],
            ErrorType::Empty => seq!['e', 'm', 'p', 't', 'y'],
            ErrorType::Error => seq!['e', 'r', 'r', 'o', 'r'],
        }
    }

    /// The event-type name stored with rate events ("rps", "rpm", ...).
    pub fn as_str(self) -> (res: &'static str)
        ensures
            res@ == self.spec_name(),
    {
        match self {
            ErrorType::Rps => {
                proof { reveal_strlit("rps"); }
                "rps"
            },
            ErrorType::Rpm => {
                proof { reveal_strlit("rpm"); }
                "rpm"
            },
            ErrorType::Rpd => {
                proof { reveal_strlit("rpd"); }
                "rpd"
            },
            ErrorType::Auth => {
                proof { reveal_strlit("auth"); }
                "auth"
            },
            ErrorType::Timeout => {
                proof { reveal_strlit("timeout"); }
                "timeout"
            },
            ErrorType::Empty => {
                proof { reveal_strlit("empty"); }
                "empty"
            },
            ErrorType::Error => {
                proof { reveal_strlit("error"); }
                "error"
            },
        }
    }

    /// The kind named by an event-type string; any other name is `Error`.
    pub open spec fn spec_from_name(name: Seq<char>) -> ErrorType {
        if name == ErrorType::Rpm.spec_name() {
            ErrorType::Rpm
        } else if name == ErrorType::Rpd.spec_name() {
            ErrorType::Rpd
        } else if name == ErrorType::Rps.spec_name() {
            ErrorType::Rps
        } else if name == ErrorType::Auth.spec_name() {
            ErrorType::Auth
        } else if name == ErrorType::Timeout.spec_name() {
            ErrorType::Timeout
        } else if name == ErrorType::Empty.spec_name() {
            ErrorType::Empty
        } else {
            ErrorType::Error
        }
    }

    /// Parses an event-type name; unknown names map to `Error`.
    pub fn from_name(name: &str) -> (res: ErrorType)
        ensures
            res == ErrorType::spec_from_name(name@),
    {
        if crate::text::str_eq(name, ErrorType::Rpm.as_str()) {
            ErrorType::Rpm
        } else if crate::text::str_eq(name, ErrorType::Rpd.as_str()) {
            ErrorType::Rpd
        } else if crate::text::str_eq(name, ErrorType::Rps.as_str()) {
            ErrorType::Rps
        } else if crate::text::str_eq(name, ErrorType::Auth.as_str()) {
            ErrorType::Auth
        } else if crate::text::str_eq(name, ErrorType::Timeout.as_str()) {
            ErrorType::Timeout
        } else if crate::text::str_eq(name, ErrorType::Empty.as_str()) {
            ErrorType::Empty
        } else {
            ErrorType::Error
        }
    }
}

/// The longest cooldown of any error kind, in milliseconds.
pub open spec fn max_cooldown_ms() -> u64 {
    3_600_000
}

/// A key's cooldown: blocked until `unblocked_at_ms`, for `error_type`.
#[derive(Debug, Clone, Copy, PartialEq, Eq, Structural)]
pub struct Cooldown {
    pub unblocked_at_ms: u64,
    pub error_type: ErrorType,
}

/// Whether a key is on cooldown at `now` in a table of cooldowns.
pub open spec fn spec_limited(m: Map<Seq<char>, Cooldown>, key: Seq<char>, now: u64) -> bool {
    m.contains_key(key) && now < m[key].unblocked_at_ms
}

/// The milliseconds of cooldown a key has left at `now` (0 when free).
pub open spec fn spec_remaining_ms(m: Map<Seq<char>, Cooldown>, key: Seq<char>, now: u64) -> u64 {
    if spec_limited(m, key, now) {
        (m[key].unblocked_at_ms - now) as u64
    } else {
        0
    }
}

#[derive(Debug, Clone, Copy, PartialEq, Eq, Structural)]
pub enum KeyState {
    /// Free to use.
    Available,
    /// On cooldown, with the remaining milliseconds.
    Cooldown(u64),
    Disabled,
}

/// Reactive cooldowns: a key that failed stays blocked for the cooldown of
/// its error kind.
pub struct RateLimitState {
    cooldowns: DashMap<String, Cooldown>,
}

impl View for RateLimitState {
    type V = Map<Seq<char>, Cooldown>;

    closed spec fn view(&self) -> Map<Seq<char>, Cooldown> {
        cooldown_entries(self.cooldowns)
    }
}

impl RateLimitState {
    /// A state with no key on cooldown.
    pub fn new() -> (res: RateLimitState)
        ensures
            res@ == Map::<Seq<char>, Cooldown>::empty(),
    {
        RateLimitState { cooldowns: cooldowns_new() }
    }

    /// Whether `api_key_id` is on cooldown at `now_ms`.
    pub fn is_limited(&self, api_key_id: &str, now_ms: u64) -> (res: bool)
        ensures
            res == spec_limited(self@, api_key_id@, now_ms),
    {
        match cooldowns_get(&self.cooldowns, api_key_id) {
            Some(c) => now_ms < c.unblocked_at_ms,
            None => false,
        }
    }

    /// Blocks `api_key_id` from `now_ms` for the cooldown of `error_type`,
    /// replacing any earlier cooldown of that key.
    pub fn report_error(&mut self, api_key_id: &str, error_type: ErrorType, now_ms: u64)
        requires
            now_ms <= u64::MAX - max_cooldown_ms(),
        ensures
            final(self)@ == old(self)@.insert(
                api_key_id@,
                Cooldown {
                    unblocked_at_ms: (now_ms + error_type.spec_cooldown_secs() * 1000) as u64,
                    error_type,
                },
            ),
    {
        let unblocked_at_ms = now_ms + error_type.cooldown_secs() * 1000;
        let key = crate::text::to_owned_string(api_key_id);
        cooldowns_insert(&mut self.cooldowns, key, Cooldown { unblocked_at_ms, error_type });
    }

    /// Milliseconds of cooldown left for `api_key_id` at `now_ms` (0 when free).
    pub fn cooldown_remaining_ms(&self, api_key_id: &str, now_ms: u64) -> (res: u64)
        ensures
            res == spec_remaining_ms(self@, api_key_id@, now_ms),
    {
        match cooldowns_get(&self.cooldowns, api_key_id) {
            Some(c) => {
                if now_ms < c.unblocked_at_ms {
                    c.unblocked_at_ms - now_ms
                } else {
                    0
                }
            },
            None => 0,
        }
    }

    /// `Cooldown(remaining)` while the key is blocked, `Available` otherwise.
    pub fn key_state(&self, api_key_id: &str, now_ms: u64) -> (res: KeyState)
        ensures
            res == (if spec_limited(self@, api_key_id@, now_ms) {
                KeyState::Cooldown(spec_remaining_ms(self@, api_key_id@, now_ms))
            } else {
                KeyState::Available
            }),
    {
        if self.is_limited(api_key_id, now_ms) {
            KeyState::Cooldown(self.cooldown_remaining_ms(api_key_id, now_ms))
        } else {
            KeyState::Available
        }
    }
}

// ---------------------------------------------------------------------------
// Sliding-window usage
// ---------------------------------------------------------------------------

/// Window lengths in milliseconds.
pub open spec fn rps_window_ms() -> u64 { 1_000 }
pub open spec fn rpm_window_ms() -> u64 { 60_000 }
pub open spec fn five_min_window_ms() -> u64 { 300_000 }
pub open spec fn rpd_window_ms() -> u64 { 86_400_000 }

/// The cutoff of a window ending at `now`: events before it have expired.
pub open spec fn window_cutoff(now: u64, window: u64) -> u64 {
    if now >= window { (now - window) as u64 } else { 0 }
}

/// Drops the leading events that are older than `cutoff`.
pub open spec fn drop_expired(events: Seq<u64>, cutoff: u64) -> Seq<u64>
    decreases events.len(),
{
    if events.len() > 0 && events[0] < cutoff {
        drop_expired(events.drop_first(), cutoff)
    } else {
        events
    }
}

/// Request timestamps of one key in each window, and its requests in flight.
#[derive(Debug)]
pub struct KeyUsage {
    pub rpm_events: VecDeque<u64>,
    pub rpd_events: VecDeque<u64>,
    pub rps_events: VecDeque<u64>,
    pub five_min_events: VecDeque<u64>,
    pub in_flight: i64,
}

pub struct KeyUsageView {
    pub rpm_events: Seq<u64>,
    pub rpd_events: Seq<u64>,
    pub rps_events: Seq<u64>,
    pub five_min_events: Seq<u64>,
    pub in_flight: i64,
}

impl View for KeyUsage {
    type V = KeyUsageView;

    open spec fn view(&self) -> KeyUsageView {
        KeyUsageView {
            rpm_events: self.rpm_events@,
            rpd_events: self.rpd_events@,
            rps_events: self.rps_events@,
            five_min_events: self.five_min_events@,
            in_flight: self.in_flight,
        }
    }
}

pub open spec fn empty_usage() -> KeyUsageView {
    KeyUsageView {
        rpm_events: Seq::empty(),
        rpd_events: Seq::empty(),
        rps_events: Seq::empty(),
        five_min_events: Seq::empty(),
        in_flight: 0,
    }
}

/// The usage after one more request at `now`.
pub open spec fn usage_after_record(u: KeyUsageView, now: u64) -> KeyUsageView {
    KeyUsageView {
        rpm_events: u.rpm_events.push(now),
        rpd_events: u.rpd_events.push(now),
        rps_events: u.rps_events.push(now),
        five_min_events: u.five_min_events.push(now),
        in_flight: u.in_flight.wrapping_add(1),
    }
}

impl KeyUsage {
    pub fn new() -> (res: KeyUsage)
        ensures
            res@ == empty_usage(),
    {
        KeyUsage {
            rpm_events: VecDeque::new(),
            rpd_events: VecDeque::new(),
            rps_events: VecDeque::new(),
            five_min_events: VecDeque::new(),
            in_flight: 0,
        }
    }

    /// Drops the events older than `window` before `now` from the front and
    /// returns how many are left.
    pub fn count_within(events: &mut VecDeque<u64>, window: u64, now: u64) -> (res: usize)
        ensures
            final(events)@ == drop_expired(old(events)@, window_cutoff(now, window)),
            res == final(events)@.len(),
    {
        let cutoff = if now >= window { now - window } else { 0 };
        loop
            invariant
                drop_expired(events@, cutoff) == drop_expired(old(events)@, cutoff),
            ensures
                events@ == drop_expired(old(events)@, cutoff),
            decreases events@.len(),
        {
            if events.len() == 0 {
                break;
            }
            let front = events[0];
            if front < cutoff {
                proof {
                    assert(events@.drop_first() == events@.subrange(1, events@.len() as int));
                }
                events.pop_front();
            } else {
                break;
            }
        }
        events.len()
    }
}


/// One of the four sliding windows.
#[derive(Debug, Clone, Copy, PartialEq, Eq, Structural)]
pub enum Window {
    PerSecond,
    PerMinute,
    FiveMinutes,
    PerDay,
}

impl Window {
    pub open spec fn spec_len_ms(self) -> u64 {
        match self {
            Window::PerSecond => rps_window_ms(),
            Window::PerMinute => rpm_window_ms(),
            Window::FiveMinutes => five_min_window_ms(),
            Window::PerDay => rpd_window_ms(),
        }
    }

    /// The window's length in milliseconds.
    pub fn len_ms(self) -> (res: u64)
        ensures
            res == self.spec_len_ms(),
    {
        match self {
            Window::PerSecond => 1_000,
            Window::PerMinute => 60_000,
            Window::FiveMinutes => 300_000,
            Window::PerDay => 86_400_000,
        }
    }
}

/// The events of a usage in one window.
pub open spec fn window_events(u: KeyUsageView, w: Window) -> Seq<u64> {
    match w {
        Window::PerSecond => u.rps_events,
        Window::PerMinute => u.rpm_events,
        Window::FiveMinutes => u.five_min_events,
        Window::PerDay => u.rpd_events,
    }
}

/// A usage with the events of one window replaced.
pub open spec fn with_window_events(u: KeyUsageView, w: Window, events: Seq<u64>) -> KeyUsageView {
    match w {
        Window::PerSecond => KeyUsageView { rps_events: events, ..u },
        Window::PerMinute => KeyUsageView { rpm_events: events, ..u },
        Window::FiveMinutes => KeyUsageView { five_min_events: events, ..u },
        Window::PerDay => KeyUsageView { rpd_events: events, ..u },
    }
}

/// A usage after dropping the expired events of one window at `now`.
pub open spec fn pruned(u: KeyUsageView, w: Window, now: u64) -> KeyUsageView {
    with_window_events(u, w, drop_expired(window_events(u, w), window_cutoff(now, w.spec_len_ms())))
}

/// Drops events from the front while there are more than `target`.
pub open spec fn trim_to(events: Seq<u64>, target: nat) -> Seq<u64> {
    if events.len() > target {
        events.subrange(events.len() - target, events.len() as int)
    } else {
        events
    }
}

impl KeyUsage {
    /// Prunes one window at `now` and returns how many of its events are left.
    pub fn count(&mut self, w: Window, now: u64) -> (res: usize)
        ensures
            final(self)@ == pruned(old(self)@, w, now),
            res == window_events(final(self)@, w).len(),
    {
        let len = w.len_ms();
        match w {
            Window::PerSecond => KeyUsage::count_within(&mut self.rps_events, len, now),
            Window::PerMinute => KeyUsage::count_within(&mut self.rpm_events, len, now),
            Window::FiveMinutes => KeyUsage::count_within(&mut self.five_min_events, len, now),
            Window::PerDay => KeyUsage::count_within(&mut self.rpd_events, len, now),
        }
    }

    /// Requests in the last minute at `now`, after pruning that window.
    pub fn rpm_count(&mut self, now: u64) -> (res: usize)
        ensures
            final(self)@ == pruned(old(self)@, Window::PerMinute, now),
            res == final(self)@.rpm_events.len(),
    {
        self.count(Window::PerMinute, now)
    }

    /// Requests in the last day at `now`, after pruning that window.
    pub fn rpd_count(&mut self, now: u64) -> (res: usize)
        ensures
            final(self)@ == pruned(old(self)@, Window::PerDay, now),
            res == final(self)@.rpd_events.len(),
    {
        self.count(Window::PerDay, now)
    }

    /// Requests in the last second at `now`, after pruning that window.
    pub fn rps_count(&mut self, now: u64) -> (res: usize)
        ensures
            final(self)@ == pruned(old(self)@, Window::PerSecond, now),
            res == final(self)@.rps_events.len(),
    {
        self.count(Window::PerSecond, now)
    }

    /// Requests in the last five minutes at `now`, after pruning that window.
    pub fn five_min_count(&mut self, now: u64) -> (res: usize)
        ensures
            final(self)@ == pruned(old(self)@, Window::FiveMinutes, now),
            res == final(self)@.five_min_events.len(),
    {
        self.count(Window::FiveMinutes, now)
    }

    /// Records one request at `now` in every window and counts it in flight.
    pub fn record(&mut self, now: u64)
        ensures
            final(self)@ == usage_after_record(old(self)@, now),
    {
        self.rpm_events.push_back(now);
        self.rpd_events.push_back(now);
        self.rps_events.push_back(now);
        self.five_min_events.push_back(now);
        self.in_flight = self.in_flight.wrapping_add(1);
    }

    /// One request in flight has finished.
    pub fn complete(&mut self)
        ensures
            final(self)@ == (KeyUsageView { in_flight: old(self)@.in_flight.wrapping_sub(1), ..old(self)@ }),
    {
        self.in_flight = self.in_flight.wrapping_sub(1);
    }
}

/// Whether a limit caps a budget: it is given and positive.
pub open spec fn has_budget(limit: Option<i64>) -> bool {
    limit matches Some(l) && l > 0
}

/// The share of a budget left after `used` requests, as a fraction
/// (numerator, denominator): (limit - used)/limit, never below 0, for a
/// positive limit; 1/1 (a full budget) without one.
pub open spec fn spec_headroom(used: nat, limit: Option<i64>) -> (u64, u64) {
    match limit {
        Some(l) => if l > 0 {
            (if used >= l { 0u64 } else { (l - used) as u64 }, l as u64)
        } else {
            (1u64, 1u64)
        },
        None => (1u64, 1u64),
    }
}

fn headroom_of(used: usize, limit: i64) -> (res: (u64, u64))
    requires
        limit > 0,
    ensures
        res == spec_headroom(used as nat, Some(limit)),
{
    let l: u64 = limit as u64;
    let u: u64 = used as u64;
    if u >= l {
        (0, l)
    } else {
        (l - u, l)
    }
}

/// Proactive sliding-window budgets per API key.
pub struct UsageTracker {
    windows: DashMap<String, KeyUsage>,
}

impl View for UsageTracker {
    type V = Map<Seq<char>, KeyUsageView>;

    closed spec fn view(&self) -> Map<Seq<char>, KeyUsageView> {
        usage_entries(self.windows).map_values(|u: KeyUsage| u@)
    }
}

/// The usage recorded for `key`, empty when there is none.
pub open spec fn usage_of(m: Map<Seq<char>, KeyUsageView>, key: Seq<char>) -> KeyUsageView {
    if m.contains_key(key) {
        m[key]
    } else {
        empty_usage()
    }
}

impl UsageTracker {
    /// A tracker with no usage recorded.
    pub fn new() -> (res: UsageTracker)
        ensures
            res@ == Map::<Seq<char>, KeyUsageView>::empty(),
    {
        let res = UsageTracker { windows: usages_new() };
        assert(res@ =~= Map::<Seq<char>, KeyUsageView>::empty());
        res
    }

    /// Takes out the usage of `key`, or a fresh one.
    fn take(&mut self, key: &str) -> (res: KeyUsage)
        ensures
            res@ == usage_of(old(self)@, key@),
            final(self)@ == old(self)@.remove(key@),
    {
        let res = match usages_remove(&mut self.windows, key) {
            Some(u) => u,
            None => KeyUsage::new(),
        };
        assert(self@ =~= old(self)@.remove(key@));
        res
    }

    /// Puts back the usage of `key`.
    fn put(&mut self, key: &str, u: KeyUsage)
        ensures
            final(self)@ == old(self)@.insert(key@, u@),
    {
        let k = crate::text::to_owned_string(key);
        usages_insert(&mut self.windows, k, u);
        assert(self@ =~= old(self)@.insert(key@, u@));
    }

    /// Records a reservation for `key_id` at `now` (before the provider call).
    pub fn reserve(&mut self, key_id: &str, now: u64)
        ensures
            final(self)@ == old(self)@.insert(key_id@, usage_after_record(usage_of(old(self)@, key_id@), now)),
    {
        let mut u = self.take(key_id);
        u.record(now);
        self.put(key_id, u);
        assert(self@ =~= old(self)@.insert(key_id@, usage_after_record(usage_of(old(self)@, key_id@), now)));
    }

    /// Signals that a request of `key_id` has finished; a key never reserved
    /// is left untouched.
    pub fn complete(&mut self, key_id: &str)
        ensures
            old(self)@.contains_key(key_id@) ==> final(self)@ == old(self)@.insert(
                key_id@,
                KeyUsageView { in_flight: old(self)@[key_id@].in_flight.wrapping_sub(1), ..old(self)@[key_id@] },
            ),
            !old(self)@.contains_key(key_id@) ==> final(self)@ == old(self)@,
    {
        match usages_remove(&mut self.windows, key_id) {
            Some(mut u) => {
                u.complete();
                self.put(key_id, u);
                assert(self@ =~= old(self)@.insert(
                    key_id@,
                    KeyUsageView { in_flight: old(self)@[key_id@].in_flight.wrapping_sub(1), ..old(self)@[key_id@] },
                ));
            },
            None => {
                assert(self@ =~= old(self)@);
            },
        }
    }

    /// Requests of `key_id` in window `w` at `now`, after dropping the expired
    /// ones. A key never seen gets an empty usage.
    pub fn count(&mut self, key_id: &str, w: Window, now: u64) -> (res: usize)
        ensures
            final(self)@ == old(self)@.insert(key_id@, pruned(usage_of(old(self)@, key_id@), w, now)),
            res == window_events(pruned(usage_of(old(self)@, key_id@), w, now), w).len(),
    {
        let mut u = self.take(key_id);
        let n = u.count(w, now);
        self.put(key_id, u);
        assert(self@ =~= old(self)@.insert(key_id@, pruned(usage_of(old(self)@, key_id@), w, now)));
        n
    }

    /// Requests of `key_id` in the last minute.
    pub fn rpm_count(&mut self, key_id: &str, now: u64) -> (res: usize)
        ensures
            final(self)@ == old(self)@.insert(key_id@, pruned(usage_of(old(self)@, key_id@), Window::PerMinute, now)),
            res == drop_expired(usage_of(old(self)@, key_id@).rpm_events, window_cutoff(now, rpm_window_ms())).len(),
    {
        self.count(key_id, Window::PerMinute, now)
    }

    /// Requests of `key_id` in the last day.
    pub fn rpd_count(&mut self, key_id: &str, now: u64) -> (res: usize)
        ensures
            final(self)@ == old(self)@.insert(key_id@, pruned(usage_of(old(self)@, key_id@), Window::PerDay, now)),
            res == drop_expired(usage_of(old(self)@, key_id@).rpd_events, window_cutoff(now, rpd_window_ms())).len(),
    {
        self.count(key_id, Window::PerDay, now)
    }

    /// Requests of `key_id` in the last second.
    pub fn rps_count(&mut self, key_id: &str, now: u64) -> (res: usize)
        ensures
            final(self)@ == old(self)@.insert(key_id@, pruned(usage_of(old(self)@, key_id@), Window::PerSecond, now)),
            res == drop_expired(usage_of(old(self)@, key_id@).rps_events, window_cutoff(now, rps_window_ms())).len(),
    {
        self.count(key_id, Window::PerSecond, now)
    }

    /// Requests of `key_id` in the last five minutes (for traffic balance).
    pub fn five_min_count(&mut self, key_id: &str, now: u64) -> (res: usize)
        ensures
            final(self)@ == old(self)@.insert(key_id@, pruned(usage_of(old(self)@, key_id@), Window::FiveMinutes, now)),
            res == drop_expired(usage_of(old(self)@, key_id@).five_min_events, window_cutoff(now, five_min_window_ms())).len(),
    {
        self.count(key_id, Window::FiveMinutes, now)
    }

    /// The share of the per-minute budget of `key_id` left at `now`, as a
    /// fraction (numerator, denominator); see `spec_headroom`. Without a
    /// positive limit the budget is full and the usage is not read.
    pub fn rpm_headroom(&mut self, key_id: &str, limit: Option<i64>, now: u64) -> (res: (u64, u64))
        ensures
            res == spec_headroom(
                drop_expired(usage_of(old(self)@, key_id@).rpm_events, window_cutoff(now, rpm_window_ms())).len(),
                limit,
            ),
            has_budget(limit) ==> final(self)@ == old(self)@.insert(
                key_id@,
                pruned(usage_of(old(self)@, key_id@), Window::PerMinute, now),
            ),
            !has_budget(limit) ==> final(self)@ == old(self)@,
    {
        match limit {
            Some(l) => {
                if l <= 0 {
                    return (1, 1);
                }
                let used = self.rpm_count(key_id, now);
                headroom_of(used, l)
            },
            None => (1, 1),
        }
    }

    /// The share of the per-day budget of `key_id` left at `now`, as a
    /// fraction (numerator, denominator); see `spec_headroom`. Without a
    /// positive limit the budget is full and the usage is not read.
    pub fn rpd_headroom(&mut self, key_id: &str, limit: Option<i64>, now: u64) -> (res: (u64, u64))
        ensures
            res == spec_headroom(
                drop_expired(usage_of(old(self)@, key_id@).rpd_events, window_cutoff(now, rpd_window_ms())).len(),
                limit,
            ),
            has_budget(limit) ==> final(self)@ == old(self)@.insert(
                key_id@,
                pruned(usage_of(old(self)@, key_id@), Window::PerDay, now),
            ),
            !has_budget(limit) ==> final(self)@ == old(self)@,
    {
        match limit {
            Some(l) => {
                if l <= 0 {
                    return (1, 1);
                }
                let used = self.rpd_count(key_id, now);
                headroom_of(used, l)
            },
            None => (1, 1),
        }
    }

    /// Anchors the per-minute budget of `key_id` to a provider-reported
    /// `remaining` count: drops the oldest events until no more than
    /// `limit - remaining` are left. Does nothing when `limit <= 0`.
    pub fn sync_rpm(&mut self, key_id: &str, remaining: i64, limit: i64)
        requires
            limit > 0 ==> i64::MIN <= limit - remaining <= i64::MAX,
        ensures
            limit <= 0 ==> final(self)@ == old(self)@,
            limit > 0 ==> final(self)@ == old(self)@.insert(
                key_id@,
                with_window_events(
                    usage_of(old(self)@, key_id@),
                    Window::PerMinute,
                    trim_to(
                        usage_of(old(self)@, key_id@).rpm_events,
                        if limit - remaining >= 0 { (limit - remaining) as nat } else { 0 },
                    ),
                ),
            ),
    {
        if limit <= 0 {
            return;
        }
        let mut u = self.take(key_id);
        let diff = limit - remaining;
        let target: u64 = if diff >= 0 { diff as u64 } else { 0 };
        let ghost start = u.rpm_events@;
        let ghost mut k: int = 0;
        proof {
            assert(start.subrange(0, start.len() as int) =~= start);
        }
        while u.rpm_events.len() as u64 > target
            invariant
                0 <= k <= start.len(),
                k > 0 ==> start.len() - k >= target,
                u.rpm_events@ == start.subrange(k, start.len() as int),
                u.rpd_events@ == usage_of(old(self)@, key_id@).rpd_events,
                u.rps_events@ == usage_of(old(self)@, key_id@).rps_events,
                u.five_min_events@ == usage_of(old(self)@, key_id@).five_min_events,
                u.in_flight == usage_of(old(self)@, key_id@).in_flight,
                start == usage_of(old(self)@, key_id@).rpm_events,
            decreases u.rpm_events@.len(),
        {
            u.rpm_events.pop_front();
            proof {
                k = k + 1;
                assert(u.rpm_events@ =~= start.subrange(k, start.len() as int));
            }
        }
        proof {
            let t: nat = if limit - remaining >= 0 { (limit - remaining) as nat } else { 0 };
            assert(t == target);
            assert(u.rpm_events@ =~= trim_to(start, t));
        }
        self.put(key_id, u);
    }
}


// ---------------------------------------------------------------------------
// Laws
// ---------------------------------------------------------------------------

/// After an error of kind `et` is reported for `key` at `now`, the key is
/// blocked at every instant before `now` plus the kind's cooldown, with the
/// remaining time counting down to that instant and never above the
/// cooldown; from that instant on it is free. Other keys are unaffected.
pub proof fn law_report_error_blocks_for_cooldown(
    m: Map<Seq<char>, Cooldown>,
    key: Seq<char>,
    other: Seq<char>,
    et: ErrorType,
    now: u64,
    later: u64,
)
    requires
        now <= u64::MAX - max_cooldown_ms(),
        now <= later,
        other != key,
    ensures
        ({
            let m2 = m.insert(key, Cooldown { unblocked_at_ms: (now + et.spec_cooldown_secs() * 1000) as u64, error_type: et });
            &&& later < now + et.spec_cooldown_secs() * 1000 ==> spec_limited(m2, key, later)
                && spec_remaining_ms(m2, key, later) == now + et.spec_cooldown_secs() * 1000 - later
                && 0 < spec_remaining_ms(m2, key, later) <= et.spec_cooldown_secs() * 1000
            &&& later >= now + et.spec_cooldown_secs() * 1000 ==> !spec_limited(m2, key, later)
                && spec_remaining_ms(m2, key, later) == 0
            &&& spec_limited(m2, other, later) == spec_limited(m, other, later)
            &&& spec_remaining_ms(m2, other, later) == spec_remaining_ms(m, other, later)
        }),
{
}

/// A key is on cooldown exactly when it has cooldown time left.
pub proof fn law_limited_iff_remaining(m: Map<Seq<char>, Cooldown>, key: Seq<char>, now: u64)
    ensures
        spec_limited(m, key, now) <==> spec_remaining_ms(m, key, now) > 0,
{
}

/// Timestamps in the order they happened.
pub open spec fn nondecreasing(s: Seq<u64>) -> bool {
    forall|i: int, j: int| 0 <= i <= j < s.len() ==> s[i] <= s[j]
}

/// When a window's events are in time order, pruning keeps exactly the
/// events at or after the cutoff: what is left is a suffix of the events,
/// all of them at or after the cutoff, and everything dropped is before it.
pub proof fn law_window_keeps_events_since_cutoff(events: Seq<u64>, cutoff: u64)
    requires
        nondecreasing(events),
    ensures
        exists|k: int|
            0 <= k <= events.len()
            && drop_expired(events, cutoff) == events.subrange(k, events.len() as int)
            && (forall|i: int| 0 <= i < k ==> events[i] < cutoff)
            && (forall|i: int| k <= i < events.len() ==> events[i] >= cutoff),
    decreases events.len(),
{
    if events.len() > 0 && events[0] < cutoff {
        let rest = events.drop_first();
        assert(nondecreasing(rest)) by {
            assert forall|i: int, j: int| 0 <= i <= j < rest.len() implies rest[i] <= rest[j] by {
                assert(rest[i] == events[i + 1]);
                assert(rest[j] == events[j + 1]);
            }
        }
        law_window_keeps_events_since_cutoff(rest, cutoff);
        let k = choose|k: int|
            0 <= k <= rest.len()
            && drop_expired(rest, cutoff) == rest.subrange(k, rest.len() as int)
            && (forall|i: int| 0 <= i < k ==> rest[i] < cutoff)
            && (forall|i: int| k <= i < rest.len() ==> rest[i] >= cutoff);
        assert(rest.subrange(k, rest.len() as int) =~= events.subrange(k + 1, events.len() as int));
        assert forall|i: int| 0 <= i < k + 1 implies events[i] < cutoff by {
            if i > 0 {
                assert(events[i] == rest[i - 1]);
            }
        }
        assert forall|i: int| k + 1 <= i < events.len() implies events[i] >= cutoff by {
            assert(events[i] == rest[i - 1]);
        }
    } else {
        assert(events.subrange(0, events.len() as int) =~= events);
        if events.len() > 0 {
            assert forall|i: int| 0 <= i < events.len() implies events[i] >= cutoff by {
                assert(events[0] <= events[i]);
            }
        }
    }
}

/// A reservation at `now` counts in every window at `now`: a window's count
/// right after `reserve` is one more than it would have been before.
pub proof fn law_reserve_counts_once(u: KeyUsageView, w: Window, now: u64)
    ensures
        drop_expired(window_events(usage_after_record(u, now), w), window_cutoff(now, w.spec_len_ms())).len()
            == drop_expired(window_events(u, w), window_cutoff(now, w.spec_len_ms())).len() + 1,
{
    lemma_drop_expired_push(window_events(u, w), window_cutoff(now, w.spec_len_ms()), now);
}

/// Headroom is a fraction between 0 and 1, and a reservation uses up one
/// request of a budget: right after `reserve` at `now`, the headroom of a
/// key for a positive limit is one step lower (or stays at 0 when the
/// budget is spent), over the same denominator; without one it stays full.
pub proof fn law_reserve_lowers_headroom(m: Map<Seq<char>, KeyUsageView>, key: Seq<char>, limit: Option<i64>, now: u64)
    ensures
        ({
            let cutoff = window_cutoff(now, rpm_window_ms());
            let before = spec_headroom(drop_expired(usage_of(m, key).rpm_events, cutoff).len(), limit);
            let reserved = m.insert(key, usage_after_record(usage_of(m, key), now));
            let after = spec_headroom(drop_expired(usage_of(reserved, key).rpm_events, cutoff).len(), limit);
            &&& before.1 > 0 && before.0 <= before.1
            &&& after.1 == before.1
            &&& has_budget(limit) && before.0 > 0 ==> after.0 == before.0 - 1
            &&& has_budget(limit) && before.0 == 0 ==> after.0 == 0
            &&& !has_budget(limit) ==> after == before && before == (1u64, 1u64)
        }),
{
    let cutoff = window_cutoff(now, rpm_window_ms());
    lemma_drop_expired_push(usage_of(m, key).rpm_events, cutoff, now);
}

/// Completing a request undoes its reservation's in-flight count: right
/// after `reserve` and then `complete` for one key, the key has as many
/// requests in flight as before, every window holds the reserved request,
/// and the other keys are untouched.
pub proof fn law_complete_undoes_reserve(m: Map<Seq<char>, KeyUsageView>, key: Seq<char>, now: u64)
    ensures
        ({
            let reserved = m.insert(key, usage_after_record(usage_of(m, key), now));
            let done = reserved.insert(
                key,
                KeyUsageView { in_flight: reserved[key].in_flight.wrapping_sub(1), ..reserved[key] },
            );
            &&& reserved.contains_key(key)
            &&& done[key] == (KeyUsageView {
                rpm_events: usage_of(m, key).rpm_events.push(now),
                rpd_events: usage_of(m, key).rpd_events.push(now),
                rps_events: usage_of(m, key).rps_events.push(now),
                five_min_events: usage_of(m, key).five_min_events.push(now),
                in_flight: usage_of(m, key).in_flight,
            })
            &&& done.remove(key) == m.remove(key)
        }),
{
    let reserved = m.insert(key, usage_after_record(usage_of(m, key), now));
    let done = reserved.insert(
        key,
        KeyUsageView { in_flight: reserved[key].in_flight.wrapping_sub(1), ..reserved[key] },
    );
    assert(done.remove(key) =~= m.remove(key));
}

/// Pruning commutes with appending an event that is not expired.
pub proof fn lemma_drop_expired_push(events: Seq<u64>, cutoff: u64, e: u64)
    requires
        e >= cutoff,
    ensures
        drop_expired(events.push(e), cutoff) == drop_expired(events, cutoff).push(e),
    decreases events.len(),
{
    if events.len() > 0 && events[0] < cutoff {
        assert(events.push(e).drop_first() =~= events.drop_first().push(e));
        lemma_drop_expired_push(events.drop_first(), cutoff, e);
    } else if events.len() > 0 {
        assert(events.push(e)[0] == events[0]);
    } else {
        assert(events.push(e)[0] == e);
    }
}

} // verus!
