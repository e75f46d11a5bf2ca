//! In-memory fixed-window rate limiter for the edge.
//!
//! At most `max_requests` per `window` per key; at most `max_keys` keys are
//! tracked. Time is a caller-supplied monotonic clock reading in
//! nanoseconds (the edge passes nanoseconds since its start instant), and
//! windows and retry delays are nanoseconds too.

use vstd::prelude::*;

verus! {

/// Default cap on distinct keys retained in memory.
pub const DEFAULT_MAX_KEYS: usize = 50_000;

/// Outcome of a rate-limit check.
#[derive(Debug, Clone, Copy, PartialEq, Eq)]
pub enum RateLimitDecision {
    Allowed { remaining: u32 },
    /// `retry_after` in nanoseconds.
    Limited { retry_after: u64 },
}

/// One tracked key: when its window started and how many requests it made.
pub struct WindowEntry {
    pub key: String,
    pub window_start: u64,
    pub count: u32,
}

/// Spec view of a tracked key.
pub struct EntryView {
    pub key: Seq<char>,
    pub start: u64,
    pub count: u32,
}

impl WindowEntry {
    pub open spec fn view(&self) -> EntryView {
        EntryView { key: self.key@, start: self.window_start, count: self.count }
    }
}

/// Fixed-window counter: at most `max_requests` per `window` per key.
pub struct FixedWindowRateLimiter {
    max_requests: u32,
    window: u64,
    max_keys: usize,
    entries: Vec<WindowEntry>,
}

/// Time since `start`, zero when `now` is earlier (`Instant::duration_since`).
pub open spec fn elapsed(now: u64, start: u64) -> int {
    if now >= start {
        now - start
    } else {
        0
    }
}

/// The entries whose window is still open at `now`, in order.
pub open spec fn live_entries(es: Seq<EntryView>, now: u64, window: u64) -> Seq<EntryView>
    decreases es.len(),
{
    if es.len() == 0 {
        seq![]
    } else {
        let rest = live_entries(es.drop_last(), now, window);
        if elapsed(now, es.last().start) < window {
            rest.push(es.last())
        } else {
            rest
        }
    }
}

/// Position of `key` among `es`, if tracked.
pub open spec fn key_index(es: Seq<EntryView>, key: Seq<char>) -> Option<int>
    decreases es.len(),
{
    if es.len() == 0 {
        None
    } else if es.last().key == key {
        Some(es.len() - 1)
    } else {
        key_index(es.drop_last(), key)
    }
}

/// Keys are pairwise distinct.
pub open spec fn distinct_keys(es: Seq<EntryView>) -> bool {
    forall|i: int, j: int| 0 <= i < es.len() && 0 <= j < es.len() && i != j ==> es[i].key != es[j].key
}

/// The state after one `check` of `key` at `now`, and the decision.
pub open spec fn check_spec(
    es: Seq<EntryView>,
    max_requests: u32,
    window: u64,
    max_keys: usize,
    key: Seq<char>,
    now: u64,
) -> (Seq<EntryView>, RateLimitDecision) {
    let live = live_entries(es, now, window);
    match key_index(live, key) {
        None => if live.len() >= max_keys {
            (live, RateLimitDecision::Limited { retry_after: window })
        } else {
            (
                live.push(EntryView { key, start: now, count: 1 }),
                RateLimitDecision::Allowed { remaining: (max_requests - 1) as u32 },
            )
        },
        Some(i) => {
            let e = live[i];
            if e.count >= max_requests {
                (
                    live,
                    RateLimitDecision::Limited { retry_after: (window - elapsed(now, e.start)) as u64 },
                )
            } else {
                (
                    live.update(i, EntryView { count: (e.count + 1) as u32, ..e }),
                    RateLimitDecision::Allowed { remaining: (max_requests - (e.count + 1)) as u32 },
                )
            }
        },
    }
}

/// Entry well-formedness: distinct keys, counts within budget, capacity kept.
pub open spec fn entries_wf(es: Seq<EntryView>, max_requests: u32, max_keys: usize) -> bool {
    &&& distinct_keys(es)
    &&& es.len() <= max_keys
    &&& forall|i: int| 0 <= i < es.len() ==> 1 <= #[trigger] es[i].count <= max_requests
}

pub proof fn lemma_live_entries_sub(es: Seq<EntryView>, now: u64, window: u64)
    ensures
        live_entries(es, now, window).len() <= es.len(),
        forall|i: int|
            0 <= i < live_entries(es, now, window).len() ==> #[trigger] es.contains(
                live_entries(es, now, window)[i],
            ),
        forall|i: int|
            0 <= i < live_entries(es, now, window).len() ==> elapsed(
                now,
                #[trigger] live_entries(es, now, window)[i].start,
            ) < window,
    decreases es.len(),
{
    if es.len() > 0 {
        let rest = es.drop_last();
        lemma_live_entries_sub(rest, now, window);
        let lr = live_entries(rest, now, window);
        assert forall|i: int| 0 <= i < lr.len() implies #[trigger] es.contains(lr[i]) by {
            assert(rest.contains(lr[i]));
            let k = choose|k: int| 0 <= k < rest.len() && rest[k] == lr[i];
            assert(es[k] == rest[k]);
        }
        assert(es[es.len() - 1] == es.last());
    }
}

/// Live entries keep the distinct-key property, and every key they hold
/// comes from `es`.
pub proof fn lemma_live_entries_distinct(es: Seq<EntryView>, now: u64, window: u64)
    requires
        distinct_keys(es),
    ensures
        distinct_keys(live_entries(es, now, window)),
    decreases es.len(),
{
    if es.len() > 0 {
        let rest = es.drop_last();
        assert forall|i: int, j: int|
            0 <= i < rest.len() && 0 <= j < rest.len() && i != j implies rest[i].key
            != rest[j].key by {
            assert(rest[i] == es[i] && rest[j] == es[j]);
        }
        lemma_live_entries_distinct(rest, now, window);
        lemma_live_entries_sub(rest, now, window);
        let lr = live_entries(rest, now, window);
        if elapsed(now, es.last().start) < window {
            let l = lr.push(es.last());
            assert forall|i: int, j: int|
                0 <= i < l.len() && 0 <= j < l.len() && i != j implies l[i].key != l[j].key by {
                if i == l.len() - 1 || j == l.len() - 1 {
                    let k = if i == l.len() - 1 {
                        j
                    } else {
                        i
                    };
                    assert(rest.contains(lr[k]));
                    let m = choose|m: int| 0 <= m < rest.len() && rest[m] == lr[k];
                    assert(es[m] == lr[k]);
                    assert(es[es.len() - 1] == es.last());
                }
            }
        }
    }
}

pub proof fn lemma_key_index(es: Seq<EntryView>, key: Seq<char>)
    ensures
        match key_index(es, key) {
            Some(i) => 0 <= i < es.len() && es[i].key == key,
            None => forall|i: int| 0 <= i < es.len() ==> es[i].key != key,
        },
    decreases es.len(),
{
    if es.len() > 0 && es.last().key != key {
        lemma_key_index(es.drop_last(), key);
        assert forall|i: int| 0 <= i < es.len() - 1 implies es.drop_last()[i] == es[i] by {}
    }
}

pub proof fn lemma_key_index_distinct(es: Seq<EntryView>, key: Seq<char>, i: int)
    requires
        distinct_keys(es),
        0 <= i < es.len(),
        es[i].key == key,
    ensures
        key_index(es, key) == Some(i),
{
    lemma_key_index(es, key);
}

/// `check_spec` keeps entry well-formedness.
pub proof fn lemma_check_keeps_wf(
    es: Seq<EntryView>,
    max_requests: u32,
    window: u64,
    max_keys: usize,
    key: Seq<char>,
    now: u64,
)
    requires
        entries_wf(es, max_requests, max_keys),
        max_requests > 0,
    ensures
        entries_wf(check_spec(es, max_requests, window, max_keys, key, now).0, max_requests, max_keys),
{
    let live = live_entries(es, now, window);
    lemma_live_entries_sub(es, now, window);
    lemma_live_entries_distinct(es, now, window);
    lemma_key_index(live, key);
    assert forall|i: int| 0 <= i < live.len() implies 1 <= #[trigger] live[i].count <= max_requests by {
        assert(es.contains(live[i]));
    }
    match key_index(live, key) {
        None => {
            if live.len() < max_keys {
                let n = live.push(EntryView { key, start: now, count: 1 });
                assert forall|i: int, j: int|
                    0 <= i < n.len() && 0 <= j < n.len() && i != j implies n[i].key != n[j].key by {
                    if i < live.len() && j < live.len() {
                    }
                }
            }
        },
        Some(k) => {
            let e = live[k];
            if e.count < max_requests {
                let n = live.update(k, EntryView { count: (e.count + 1) as u32, ..e });
                assert forall|i: int, j: int|
                    0 <= i < n.len() && 0 <= j < n.len() && i != j implies n[i].key != n[j].key by {
                    assert(n[i].key == live[i].key);
                    assert(n[j].key == live[j].key);
                }
            }
        },
    }
}


/// A key with no open window gets its first request allowed (budget minus
/// one remaining), as long as the key table has room.
pub proof fn law_first_request_allowed(
    es: Seq<EntryView>,
    max_requests: u32,
    window: u64,
    max_keys: usize,
    key: Seq<char>,
    now: u64,
)
    requires
        entries_wf(es, max_requests, max_keys),
        max_requests > 0,
        forall|i: int| 0 <= i < live_entries(es, now, window).len() ==> (#[trigger] live_entries(es, now, window)[i]).key != key,
        live_entries(es, now, window).len() < max_keys,
    ensures
        check_spec(es, max_requests, window, max_keys, key, now).1 == (RateLimitDecision::Allowed {
            remaining: (max_requests - 1) as u32,
        }),
        key_index(check_spec(es, max_requests, window, max_keys, key, now).0, key) matches Some(
            i,
        ) && check_spec(es, max_requests, window, max_keys, key, now).0[i].count == 1,
{
    let live = live_entries(es, now, window);
    lemma_key_index(live, key);
    if let Some(k) = key_index(live, key) {
        assert(live[k].key == key);
    }
}

/// Within an open window a key is allowed while its count is below the
/// budget (count goes up by one) and limited once the budget is spent
/// (nothing changes for it).
pub proof fn law_budget_within_window(
    es: Seq<EntryView>,
    max_requests: u32,
    window: u64,
    max_keys: usize,
    key: Seq<char>,
    now: u64,
    i: int,
)
    requires
        entries_wf(es, max_requests, max_keys),
        0 <= i < live_entries(es, now, window).len(),
        live_entries(es, now, window)[i].key == key,
    ensures
        ({
            let live = live_entries(es, now, window);
            let c = live[i].count;
            let (next, d) = check_spec(es, max_requests, window, max_keys, key, now);
            &&& c < max_requests ==> d == RateLimitDecision::Allowed {
                remaining: (max_requests - c - 1) as u32,
            } && next[i].count == c + 1
            &&& c >= max_requests ==> d is Limited && next == live
        }),
{
    lemma_live_entries_distinct(es, now, window);
    lemma_key_index_distinct(live_entries(es, now, window), key, i);
}

/// After a key's window has run out, its next request starts a fresh
/// window and is allowed, as long as the key table has room.
pub proof fn law_window_reset(
    es: Seq<EntryView>,
    max_requests: u32,
    window: u64,
    max_keys: usize,
    key: Seq<char>,
    now: u64,
    i: int,
)
    requires
        entries_wf(es, max_requests, max_keys),
        max_requests > 0,
        0 <= i < es.len(),
        es[i].key == key,
        elapsed(now, es[i].start) >= window,
        live_entries(es, now, window).len() < max_keys,
    ensures
        check_spec(es, max_requests, window, max_keys, key, now).1 == (RateLimitDecision::Allowed {
            remaining: (max_requests - 1) as u32,
        }),
{
    let live = live_entries(es, now, window);
    lemma_live_entries_sub(es, now, window);
    assert forall|k: int| 0 <= k < live.len() implies (#[trigger] live[k]).key != key by {
        assert(es.contains(live[k]));
        let m = choose|m: int| 0 <= m < es.len() && es[m] == live[k];
        if live[k].key == key {
            assert(m == i);
        }
    }
    law_first_request_allowed(es, max_requests, window, max_keys, key, now);
}

/// A check of one key leaves every other open window as it was.
pub proof fn law_keys_independent(
    es: Seq<EntryView>,
    max_requests: u32,
    window: u64,
    max_keys: usize,
    key: Seq<char>,
    other: Seq<char>,
    now: u64,
)
    requires
        entries_wf(es, max_requests, max_keys),
        max_requests > 0,
        other != key,
    ensures
        ({
            let live = live_entries(es, now, window);
            let next = check_spec(es, max_requests, window, max_keys, key, now).0;
            match key_index(live, other) {
                Some(i) => key_index(next, other) == Some(i) && next[i] == live[i],
                None => key_index(next, other) is None,
            }
        }),
{
    let live = live_entries(es, now, window);
    let next = check_spec(es, max_requests, window, max_keys, key, now).0;
    lemma_live_entries_distinct(es, now, window);
    lemma_check_keeps_wf(es, max_requests, window, max_keys, key, now);
    lemma_key_index(live, key);
    lemma_key_index(live, other);
    lemma_key_index(next, other);
    match key_index(live, other) {
        Some(i) => {
            assert(next[i] == live[i]);
            lemma_key_index_distinct(next, other, i);
        },
        None => {
            if let Some(j) = key_index(next, other) {
                if j < live.len() {
                    assert(next[j].key == live[j].key);
                }
            }
        },
    }
}

/// When the table is full of open windows, a new key is refused for a
/// whole window and nothing is added.
pub proof fn law_full_table_refuses_new_key(
    es: Seq<EntryView>,
    max_requests: u32,
    window: u64,
    max_keys: usize,
    key: Seq<char>,
    now: u64,
)
    requires
        forall|i: int| 0 <= i < live_entries(es, now, window).len() ==> (#[trigger] live_entries(es, now, window)[i]).key != key,
        live_entries(es, now, window).len() >= max_keys,
    ensures
        check_spec(es, max_requests, window, max_keys, key, now) == (
            live_entries(es, now, window),
            RateLimitDecision::Limited { retry_after: window },
        ),
{
    let live = live_entries(es, now, window);
    lemma_key_index(live, key);
    if let Some(k) = key_index(live, key) {
        assert(live[k].key == key);
    }
}

impl FixedWindowRateLimiter {
    /// Spec view of the tracked entries.
    pub closed spec fn entries_view(&self) -> Seq<EntryView> {
        self.entries@.map_values(|e: WindowEntry| e.view())
    }

    pub closed spec fn spec_max_requests(&self) -> u32 {
        self.max_requests
    }

    pub closed spec fn spec_window(&self) -> u64 {
        self.window
    }

    pub closed spec fn spec_max_keys(&self) -> usize {
        self.max_keys
    }

    /// Internal invariant kept by every operation.
    pub closed spec fn wf(&self) -> bool {
        &&& self.max_requests > 0
        &&& self.window > 0
        &&& self.max_keys > 0
        &&& entries_wf(self.entries_view(), self.max_requests, self.max_keys)
    }

    /// A limiter with [`DEFAULT_MAX_KEYS`].
    pub fn new(max_requests: u32, window: u64) -> (r: Self)
        requires
            max_requests > 0,
            window > 0,
        ensures
            r.wf(),
            r.spec_max_requests() == max_requests,
            r.spec_window() == window,
            r.spec_max_keys() == DEFAULT_MAX_KEYS,
            r.entries_view() == Seq::<EntryView>::empty(),
    {
        Self::with_max_keys(max_requests, window, DEFAULT_MAX_KEYS)
    }

    /// A limiter holding at most `max_keys` keys.
    pub fn with_max_keys(max_requests: u32, window: u64, max_keys: usize) -> (r: Self)
        requires
            max_requests > 0,
            window > 0,
            max_keys > 0,
        ensures
            r.wf(),
            r.spec_max_requests() == max_requests,
            r.spec_window() == window,
            r.spec_max_keys() == max_keys,
            r.entries_view() == Seq::<EntryView>::empty(),
    {
        let r = FixedWindowRateLimiter { max_requests, window, max_keys, entries: Vec::new() };
        assert(r.entries_view() =~= Seq::<EntryView>::empty());
        r
    }

    /// Records one request for `key` at `now` and returns allow or limit.
    pub fn check(&mut self, key: &str, now: u64) -> (d: RateLimitDecision)
        requires
            old(self).wf(),
        ensures
            final(self).wf(),
            final(self).spec_max_requests() == old(self).spec_max_requests(),
            final(self).spec_window() == old(self).spec_window(),
            final(self).spec_max_keys() == old(self).spec_max_keys(),
            (final(self).entries_view(), d) == check_spec(
                old(self).entries_view(),
                old(self).spec_max_requests(),
                old(self).spec_window(),
                old(self).spec_max_keys(),
                key@,
                now,
            ),
    {
        let ghost es0 = self.entries_view();
        // Drop expired windows first so capacity can recover.
        let mut live: Vec<WindowEntry> = Vec::new();
        let mut idx: usize = 0;
        let n = self.entries.len();
        while idx < n
            invariant
                idx <= n,
                n == es0.len(),
                self.entries_view() == es0,
                live@.map_values(|e: WindowEntry| e.view()) == live_entries(
                    es0.take(idx as int),
                    now,
                    self.window,
                ),
            decreases n - idx,
        {
            let e = &self.entries[idx];
            proof {
                assert(e.view() == es0[idx as int]);
                assert(es0.take(idx + 1).drop_last() =~= es0.take(idx as int));
                assert(es0.take(idx + 1).last() == es0[idx as int]);
            }
            let el: u64 = if now >= e.window_start {
                now - e.window_start
            } else {
                0
            };
            if el < self.window {
                let ghost before = live@.map_values(|e: WindowEntry| e.view());
                let copy = WindowEntry {
                    key: e.key.clone(),
                    window_start: e.window_start,
                    count: e.count,
                };
                live.push(copy);
                proof {
                    assert(live@.map_values(|e: WindowEntry| e.view()) =~= before.push(
                        es0[idx as int],
                    ));
                }
            }
            idx += 1;
        }
        proof {
            assert(es0.take(n as int) =~= es0);
        }
        let ghost lv = live_entries(es0, now, self.window);
        proof {
            lemma_live_entries_sub(es0, now, self.window);
            lemma_live_entries_distinct(es0, now, self.window);
            lemma_key_index(lv, key@);
        }
        let key_s = key.to_owned();
        let mut found: Option<usize> = None;
        let mut j: usize = 0;
        while j < live.len()
            invariant
                j <= live.len(),
                live@.map_values(|e: WindowEntry| e.view()) == lv,
                key_s@ == key@,
                found is None ==> forall|k: int| 0 <= k < j ==> lv[k].key != key@,
                found matches Some(k) ==> k < live.len() && lv[k as int].key == key@,
            decreases live.len() - j,
        {
            if found.is_none() && live[j].key == key_s {
                found = Some(j);
            }
            j += 1;
        }
        let d = match found {
            None => {
                proof {
                    assert forall|k: int| 0 <= k < lv.len() implies lv[k].key != key@ by {}
                    if let Some(k) = key_index(lv, key@) {
                        assert(lv[k].key == key@);
                    }
                }
                if live.len() >= self.max_keys {
                    // At capacity: refuse new keys rather than grow forever.
                    self.entries = live;
                    RateLimitDecision::Limited { retry_after: self.window }
                } else {
                    let ghost before = live@.map_values(|e: WindowEntry| e.view());
                    live.push(WindowEntry { key: key_s, window_start: now, count: 1 });
                    proof {
                        assert(live@.map_values(|e: WindowEntry| e.view()) =~= before.push(
                            EntryView { key: key@, start: now, count: 1 },
                        ));
                    }
                    self.entries = live;
                    RateLimitDecision::Allowed { remaining: self.max_requests - 1 }
                }
            },
            Some(k) => {
                proof {
                    lemma_key_index_distinct(lv, key@, k as int);
                    assert(lv.contains(lv[k as int]));
                    assert(es0.contains(lv[k as int]));
                    let m = choose|m: int| 0 <= m < es0.len() && es0[m] == lv[k as int];
                    assert(1 <= es0[m].count <= self.max_requests);
                }
                let start = live[k].window_start;
                let count = live[k].count;
                let el: u64 = if now >= start {
                    now - start
                } else {
                    0
                };
                if count >= self.max_requests {
                    self.entries = live;
                    RateLimitDecision::Limited { retry_after: self.window - el }
                } else {
                    let ghost before = live@.map_values(|e: WindowEntry| e.view());
                    let old_e = live.remove(k);
                    let new_e = WindowEntry {
                        key: old_e.key,
                        window_start: old_e.window_start,
                        count: count + 1,
                    };
                    live.insert(k, new_e);
                    proof {
                        assert(live@.map_values(|e: WindowEntry| e.view()) =~= before.update(
                            k as int,
                            EntryView { count: (count + 1) as u32, ..lv[k as int] },
                        ));
                    }
                    self.entries = live;
                    RateLimitDecision::Allowed { remaining: self.max_requests - (count + 1) }
                }
            },
        };
        proof {
            lemma_check_keeps_wf(es0, self.max_requests, self.window, self.max_keys, key@, now);
        }
        d
    }

    pub fn max_requests(&self) -> (r: u32)
        ensures
            r == self.spec_max_requests(),
    {
        self.max_requests
    }

    /// Window length in nanoseconds.
    pub fn window(&self) -> (r: u64)
        ensures
            r == self.spec_window(),
    {
        self.window
    }

    pub fn max_keys(&self) -> (r: usize)
        ensures
            r == self.spec_max_keys(),
    {
        self.max_keys
    }

    /// Number of tracked keys.
    pub fn len_keys(&self) -> (r: usize)
        ensures
            r == self.entries_view().len(),
    {
        self.entries.len()
    }
}

/// `n` checks of one key at the same instant: the final entries and the
/// decisions, in order.
pub open spec fn check_run(
    es: Seq<EntryView>,
    max_requests: u32,
    window: u64,
    max_keys: usize,
    key: Seq<char>,
    now: u64,
    n: nat,
) -> (Seq<EntryView>, Seq<RateLimitDecision>)
    decreases n,
{
    if n == 0 {
        (es, seq![])
    } else {
        let prev = check_run(es, max_requests, window, max_keys, key, now, (n - 1) as nat);
        let step = check_spec(prev.0, max_requests, window, max_keys, key, now);
        (step.0, prev.1.push(step.1))
    }
}

/// The decision of the `j`-th (from 0) of a burst of checks of a fresh key.
pub open spec fn burst_decision(max_requests: u32, window: u64, j: int) -> RateLimitDecision {
    if j < max_requests {
        RateLimitDecision::Allowed { remaining: (max_requests - 1 - j) as u32 }
    } else {
        RateLimitDecision::Limited { retry_after: window }
    }
}

proof fn lemma_all_live(es: Seq<EntryView>, now: u64, window: u64)
    requires
        forall|i: int| 0 <= i < es.len() ==> elapsed(now, #[trigger] es[i].start) < window,
    ensures
        live_entries(es, now, window) == es,
    decreases es.len(),
{
    if es.len() > 0 {
        let d = es.drop_last();
        assert forall|i: int| 0 <= i < d.len() implies elapsed(now, #[trigger] d[i].start) < window by {
            assert(d[i] == es[i]);
        }
        lemma_all_live(d, now, window);
        assert(es[es.len() - 1] == es.last());
        assert(d.push(es.last()) =~= es);
    }
}

proof fn lemma_check_run(
    es: Seq<EntryView>,
    max_requests: u32,
    window: u64,
    max_keys: usize,
    key: Seq<char>,
    now: u64,
    n: nat,
)
    requires
        entries_wf(es, max_requests, max_keys),
        max_requests > 0,
        window > 0,
        forall|i: int| 0 <= i < live_entries(es, now, window).len() ==> (#[trigger] live_entries(es, now, window)[i]).key != key,
        live_entries(es, now, window).len() < max_keys,
        n >= 1,
    ensures
        ({
            let (st, ds) = check_run(es, max_requests, window, max_keys, key, now, n);
            &&& entries_wf(st, max_requests, max_keys)
            &&& forall|i: int| 0 <= i < st.len() ==> elapsed(now, #[trigger] st[i].start) < window
            &&& key_index(st, key) matches Some(i) && st[i].start == now && st[i].count == (if n < max_requests {
                n
            } else {
                max_requests as nat
            })
            &&& ds.len() == n
            &&& forall|j: int| 0 <= j < n ==> #[trigger] ds[j] == burst_decision(max_requests, window, j)
        }),
    decreases n,
{
    if n == 1 {
        let live = live_entries(es, now, window);
        lemma_live_entries_sub(es, now, window);
        law_first_request_allowed(es, max_requests, window, max_keys, key, now);
        lemma_check_keeps_wf(es, max_requests, window, max_keys, key, now);
        lemma_key_index(live, key);
        let st = check_spec(es, max_requests, window, max_keys, key, now).0;
        assert(check_run(es, max_requests, window, max_keys, key, now, 0) == (es, Seq::<RateLimitDecision>::empty()));
        assert(st == live.push(EntryView { key, start: now, count: 1 }));
        assert forall|i: int| 0 <= i < st.len() implies elapsed(now, #[trigger] st[i].start) < window by {
            if i < live.len() {
                assert(st[i] == live[i]);
            }
        }
        lemma_key_index(st, key);
        let ds = check_run(es, max_requests, window, max_keys, key, now, 1).1;
        assert(ds[0] == burst_decision(max_requests, window, 0));
    } else {
        let m = (n - 1) as nat;
        lemma_check_run(es, max_requests, window, max_keys, key, now, m);
        let (s, ds) = check_run(es, max_requests, window, max_keys, key, now, m);
        lemma_all_live(s, now, window);
        let i = key_index(s, key)->Some_0;
        lemma_key_index(s, key);
        law_budget_within_window(s, max_requests, window, max_keys, key, now, i);
        lemma_check_keeps_wf(s, max_requests, window, max_keys, key, now);
        let (st, d) = check_spec(s, max_requests, window, max_keys, key, now);
        lemma_key_index_distinct(s, key, i);
        if s[i].count < max_requests {
            assert(st == s.update(i, EntryView { count: (s[i].count + 1) as u32, ..s[i] }));
            assert forall|k: int| 0 <= k < st.len() implies elapsed(now, #[trigger] st[k].start) < window by {
                assert(st[k].start == s[k].start);
            }
            lemma_key_index_distinct(st, key, i);
        } else {
            assert(st == s);
        }
        let ds2 = ds.push(d);
        assert forall|j: int| 0 <= j < n implies #[trigger] ds2[j] == burst_decision(max_requests, window, j) by {
            if j < m {
                assert(ds2[j] == ds[j]);
            }
        }
    }
}

/// A burst of checks of a key with no open window, all at one instant:
/// the first `max_requests` are allowed with one less remaining each time,
/// and every later one is limited for the whole window.
pub proof fn law_burst_of_checks(
    es: Seq<EntryView>,
    max_requests: u32,
    window: u64,
    max_keys: usize,
    key: Seq<char>,
    now: u64,
    n: nat,
)
    requires
        entries_wf(es, max_requests, max_keys),
        max_requests > 0,
        window > 0,
        forall|i: int| 0 <= i < live_entries(es, now, window).len() ==> (#[trigger] live_entries(es, now, window)[i]).key != key,
        live_entries(es, now, window).len() < max_keys,
    ensures
        check_run(es, max_requests, window, max_keys, key, now, n).1.len() == n,
        forall|j: int|
            0 <= j < n ==> #[trigger] check_run(es, max_requests, window, max_keys, key, now, n).1[j] == burst_decision(
                max_requests,
                window,
                j,
            ),
{
    if n >= 1 {
        lemma_check_run(es, max_requests, window, max_keys, key, now, n);
    }
}

/// Every check keeps the key table within `max_keys` (and well formed), and
/// a limited request is never told to wait longer than one window.
pub proof fn law_check_bounds(
    es: Seq<EntryView>,
    max_requests: u32,
    window: u64,
    max_keys: usize,
    key: Seq<char>,
    now: u64,
)
    requires
        entries_wf(es, max_requests, max_keys),
        max_requests > 0,
        window > 0,
    ensures
        entries_wf(check_spec(es, max_requests, window, max_keys, key, now).0, max_requests, max_keys),
        check_spec(es, max_requests, window, max_keys, key, now).0.len() <= max_keys,
        check_spec(es, max_requests, window, max_keys, key, now).1 matches RateLimitDecision::Limited { retry_after }
            ==> 0 < retry_after <= window,
        check_spec(es, max_requests, window, max_keys, key, now).1 matches RateLimitDecision::Allowed { remaining }
            ==> remaining < max_requests,
{
    lemma_check_keeps_wf(es, max_requests, window, max_keys, key, now);
    let live = live_entries(es, now, window);
    lemma_live_entries_sub(es, now, window);
    lemma_key_index(live, key);
    if let Some(i) = key_index(live, key) {
        assert(es.contains(live[i]));
        assert(elapsed(now, live[i].start) < window);
    }
}

/// A history of checks `(key, now)`, in order: the final entries and the
/// decisions.
pub open spec fn run_history(
    es: Seq<EntryView>,
    max_requests: u32,
    window: u64,
    max_keys: usize,
    calls: Seq<(Seq<char>, u64)>,
) -> (Seq<EntryView>, Seq<RateLimitDecision>)
    decreases calls.len(),
{
    if calls.len() == 0 {
        (es, seq![])
    } else {
        let prev = run_history(es, max_requests, window, max_keys, calls.drop_last());
        let c = calls.last();
        let step = check_spec(prev.0, max_requests, window, max_keys, c.0, c.1);
        (step.0, prev.1.push(step.1))
    }
}

/// How many of the first `n` calls are for `key`.
pub open spec fn calls_of_before(calls: Seq<(Seq<char>, u64)>, key: Seq<char>, n: int) -> nat
    decreases n,
{
    if n <= 0 {
        0
    } else {
        calls_of_before(calls, key, n - 1) + flag(calls[n - 1].0 == key)
    }
}

pub open spec fn flag(b: bool) -> nat {
    if b {
        1
    } else {
        0
    }
}

/// The decision owed to the `j`-th (from 0) call of a key in one window.
pub open spec fn window_decision_ok(d: RateLimitDecision, max_requests: u32, window: u64, j: nat) -> bool {
    if j < max_requests {
        d == RateLimitDecision::Allowed { remaining: (max_requests - 1 - j) as u32 }
    } else {
        d matches RateLimitDecision::Limited { retry_after } && 0 < retry_after <= window
    }
}

proof fn lemma_live_keeps(es: Seq<EntryView>, now: u64, window: u64, i: int)
    requires
        0 <= i < es.len(),
        elapsed(now, es[i].start) < window,
    ensures
        live_entries(es, now, window).contains(es[i]),
    decreases es.len(),
{
    let d = es.drop_last();
    if i == es.len() - 1 {
        assert(live_entries(es, now, window) == live_entries(d, now, window).push(es.last()));
        assert(live_entries(es, now, window)[live_entries(d, now, window).len() as int] == es[i]);
    } else {
        assert(d[i] == es[i]);
        lemma_live_keeps(d, now, window, i);
        let l = live_entries(d, now, window);
        let k = choose|k: int| 0 <= k < l.len() && l[k] == es[i];
        if elapsed(now, es.last().start) < window {
            assert(live_entries(es, now, window)[k] == es[i]);
        }
    }
}

proof fn lemma_check_len(
    es: Seq<EntryView>,
    max_requests: u32,
    window: u64,
    max_keys: usize,
    key: Seq<char>,
    now: u64,
)
    ensures
        check_spec(es, max_requests, window, max_keys, key, now).0.len() <= es.len() + 1,
{
    lemma_live_entries_sub(es, now, window);
    let live = live_entries(es, now, window);
    lemma_key_index(live, key);
    match key_index(live, key) {
        None => {},
        Some(i) => {
            let e = live[i];
            if e.count < max_requests {
                assert(live.update(i, EntryView { count: (e.count + 1) as u32, ..e }).len() == live.len());
            }
        },
    }
}

/// The state after the first `n` calls, for one key `k`, within a window
/// opened at or after `t0`.
pub open spec fn history_inv(
    s: Seq<EntryView>,
    ds: Seq<RateLimitDecision>,
    es: Seq<EntryView>,
    max_requests: u32,
    window: u64,
    max_keys: usize,
    calls: Seq<(Seq<char>, u64)>,
    k: Seq<char>,
    t0: u64,
    n: int,
) -> bool {
    let c = calls_of_before(calls, k, n);
    &&& entries_wf(s, max_requests, max_keys)
    &&& s.len() <= es.len() + n
    &&& c == 0 ==> forall|i: int| 0 <= i < s.len() && (#[trigger] s[i]).key == k ==> s[i].start + window <= t0
    &&& c > 0 ==> exists|i: int|
        0 <= i < s.len() && (#[trigger] s[i]).key == k && t0 <= s[i].start < t0 + window && s[i].count == (if c
            < max_requests {
            c
        } else {
            max_requests as nat
        })
    &&& ds.len() == n
    &&& forall|j: int|
        0 <= j < n && calls[j].0 == k ==> window_decision_ok(
            #[trigger] ds[j],
            max_requests,
            window,
            calls_of_before(calls, k, j),
        )
}

#[verifier::spinoff_prover]
#[verifier::rlimit(80)]
proof fn lemma_history_step(
    s: Seq<EntryView>,
    ds: Seq<RateLimitDecision>,
    es: Seq<EntryView>,
    max_requests: u32,
    window: u64,
    max_keys: usize,
    calls: Seq<(Seq<char>, u64)>,
    k: Seq<char>,
    t0: u64,
    n: int,
)
    requires
        0 <= n < calls.len(),
        max_requests > 0,
        window > 0,
        es.len() + calls.len() < max_keys,
        t0 <= calls[n].1 < t0 + window,
        history_inv(s, ds, es, max_requests, window, max_keys, calls, k, t0, n),
    ensures
        ({
            let step = check_spec(s, max_requests, window, max_keys, calls[n].0, calls[n].1);
            history_inv(step.0, ds.push(step.1), es, max_requests, window, max_keys, calls, k, t0, n + 1)
        }),
{
    let key2 = calls[n].0;
    let now = calls[n].1;
    let c = calls_of_before(calls, k, n);
    let c1 = calls_of_before(calls, k, n + 1);
    let live = live_entries(s, now, window);
    let (s2, d) = check_spec(s, max_requests, window, max_keys, key2, now);
    lemma_live_entries_sub(s, now, window);
    lemma_live_entries_distinct(s, now, window);
    lemma_check_keeps_wf(s, max_requests, window, max_keys, key2, now);
    lemma_check_len(s, max_requests, window, max_keys, key2, now);
    lemma_key_index(live, k);
    lemma_key_index(s2, k);
    law_check_bounds(s, max_requests, window, max_keys, key2, now);
    // k's place in the live entries.
    if c == 0 {
        assert forall|j: int| 0 <= j < live.len() implies (#[trigger] live[j]).key != k by {
            assert(s.contains(live[j]));
            let m = choose|m: int| 0 <= m < s.len() && s[m] == live[j];
            if live[j].key == k {
                assert(s[m].start + window <= t0);
            }
        }
    } else {
        let i = choose|i: int|
            0 <= i < s.len() && (#[trigger] s[i]).key == k && t0 <= s[i].start < t0 + window && s[i].count == (if c
                < max_requests {
                c
            } else {
                max_requests as nat
            });
        lemma_live_keeps(s, now, window, i);
    }
    let ds2 = ds.push(d);
    assert forall|j: int|
        0 <= j < n && calls[j].0 == k implies window_decision_ok(
            #[trigger] ds2[j],
            max_requests,
            window,
            calls_of_before(calls, k, j),
        ) by {
        assert(ds2[j] == ds[j]);
    }
    if key2 == k {
        assert(c1 == c + 1);
        if c == 0 {
            law_first_request_allowed(s, max_requests, window, max_keys, k, now);
            assert(s2 == live.push(EntryView { key: k, start: now, count: 1 }));
            assert(s2[live.len() as int].key == k);
        } else {
            let i2 = choose|i2: int| 0 <= i2 < live.len() && live[i2].key == k && t0 <= live[i2].start < t0 + window
                && live[i2].count == (if c < max_requests {
                c
            } else {
                max_requests as nat
            });
            lemma_key_index_distinct(live, k, i2);
            law_budget_within_window(s, max_requests, window, max_keys, k, now, i2);
            if live[i2].count < max_requests {
                assert(s2 == live.update(i2, EntryView { count: (live[i2].count + 1) as u32, ..live[i2] }));
                assert(s2[i2].key == k);
            } else {
                assert(s2 == live);
            }
        }
    } else {
        assert(c1 == c);
        law_keys_independent(s, max_requests, window, max_keys, key2, k, now);
        if c > 0 {
            let i2 = choose|i2: int| 0 <= i2 < live.len() && live[i2].key == k && t0 <= live[i2].start < t0 + window
                && live[i2].count == (if c < max_requests {
                c
            } else {
                max_requests as nat
            });
            lemma_key_index_distinct(live, k, i2);
            assert(s2[i2] == live[i2]);
        }
    }
}

proof fn lemma_history(
    es: Seq<EntryView>,
    max_requests: u32,
    window: u64,
    max_keys: usize,
    calls: Seq<(Seq<char>, u64)>,
    k: Seq<char>,
    t0: u64,
    n: int,
)
    requires
        0 <= n <= calls.len(),
        entries_wf(es, max_requests, max_keys),
        max_requests > 0,
        window > 0,
        es.len() + calls.len() < max_keys,
        forall|j: int| 0 <= j < calls.len() ==> t0 <= (#[trigger] calls[j]).1 < t0 + window,
        forall|i: int| 0 <= i < es.len() && (#[trigger] es[i]).key == k ==> es[i].start + window <= t0,
    ensures
        ({
            let (s, ds) = run_history(es, max_requests, window, max_keys, calls.take(n));
            history_inv(s, ds, es, max_requests, window, max_keys, calls, k, t0, n)
        }),
    decreases n,
{
    if n == 0 {
        assert(calls.take(0) =~= Seq::<(Seq<char>, u64)>::empty());
    } else {
        lemma_history(es, max_requests, window, max_keys, calls, k, t0, n - 1);
        assert(calls.take(n).drop_last() =~= calls.take(n - 1));
        assert(calls.take(n).last() == calls[n - 1]);
        let (s, ds) = run_history(es, max_requests, window, max_keys, calls.take(n - 1));
        lemma_history_step(s, ds, es, max_requests, window, max_keys, calls, k, t0, n - 1);
    }
}

/// Any history of checks that all fall within one window from `t0`, for a
/// key with no window open at `t0`, while the table has room: the key's
/// `j`-th call (from 0) is allowed with `max_requests - 1 - j` remaining
/// while `j < max_requests`, and limited for at most one window after
/// that; other keys' calls, in any order and number, change nothing of it.
pub proof fn law_window_history(
    es: Seq<EntryView>,
    max_requests: u32,
    window: u64,
    max_keys: usize,
    calls: Seq<(Seq<char>, u64)>,
    k: Seq<char>,
    t0: u64,
)
    requires
        entries_wf(es, max_requests, max_keys),
        max_requests > 0,
        window > 0,
        es.len() + calls.len() < max_keys,
        forall|j: int| 0 <= j < calls.len() ==> t0 <= (#[trigger] calls[j]).1 < t0 + window,
        forall|i: int| 0 <= i < es.len() && (#[trigger] es[i]).key == k ==> es[i].start + window <= t0,
    ensures
        forall|j: int|
            0 <= j < calls.len() && calls[j].0 == k ==> window_decision_ok(
                #[trigger] run_history(es, max_requests, window, max_keys, calls).1[j],
                max_requests,
                window,
                calls_of_before(calls, k, j),
            ),
{
    lemma_history(es, max_requests, window, max_keys, calls, k, t0, calls.len() as int);
    assert(calls.take(calls.len() as int) =~= calls);
}

} // verus!
