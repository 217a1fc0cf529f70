//! Sina data fetching: response parsing, request scheduling and rate limiting.
pub mod coordinator;
pub mod hybrid;
pub mod kline;
pub mod quotes;
pub mod node_table;
pub mod search;
pub mod symbols;
pub mod tq_client;

use vstd::prelude::*;
use std::collections::VecDeque;

verus! {

/// Default smallest spacing of two requests, in milliseconds.
pub const DEFAULT_INTERVAL_MS: u64 = 400;
/// Default request budget per minute.
pub const DEFAULT_MINUTELY_BUDGET: usize = 60;

/// A sliding-window rate limiter, on a monotonic millisecond clock that the caller
/// reads: two admissions lie at least `min_interval_ms` apart, and at most `budget`
/// admissions fall in any window of `window_ms`.
pub struct RateLimiter {
    min_interval_ms: u64,
    budget: usize,
    window_ms: u64,
    hits: VecDeque<u64>,
}

/// The limiter's answer to a request for a slot.
#[derive(Debug, Clone, Copy, PartialEq, Eq, Structural)]
pub enum Admission {
    /// The slot is taken now.
    Granted,
    /// Ask again after this many milliseconds.
    Wait(u64),
}

/// The admissions still inside the window ending at `now`: older ones drop off the
/// front (an admission stamped after `now` counts as inside).
pub open spec fn prune(hits: Seq<u64>, now: u64, window: u64) -> Seq<u64>
    decreases hits.len(),
{
    if hits.len() > 0 && now >= hits[0] && now - hits[0] >= window {
        prune(hits.drop_first(), now, window)
    } else {
        hits
    }
}

/// `a - b`, or 0 where `b` exceeds `a`.
pub open spec fn sat_sub(a: u64, b: u64) -> u64 {
    if a >= b {
        (a - b) as u64
    } else {
        0
    }
}

/// The state of a limiter, as (smallest spacing, budget, window, admissions so far).
pub type LimiterView = (u64, usize, u64, Seq<u64>);

/// What a request for a slot at `now` does: the admissions that left the window are
/// forgotten; with room in the budget the slot is granted once the spacing since the
/// last admission has passed (else wait out the rest of the spacing); with the budget
/// spent, wait until the oldest admission leaves the window, plus a millisecond.
pub open spec fn limiter_step(s: LimiterView, now: u64) -> (LimiterView, Admission) {
    let (min, budget, window, hits) = s;
    let p = prune(hits, now, window);
    if p.len() < budget {
        let wait = if p.len() == 0 {
            0
        } else {
            sat_sub(min, sat_sub(now, p.last()))
        };
        if wait == 0 {
            ((min, budget, window, p.push(now)), Admission::Granted)
        } else {
            ((min, budget, window, p), Admission::Wait(wait))
        }
    } else {
        let rest = sat_sub(window, sat_sub(now, p[0]));
        ((min, budget, window, p), Admission::Wait(if rest < u64::MAX { (rest + 1) as u64 } else { rest }))
    }
}

proof fn lemma_prune_suffix(hits: Seq<u64>, now: u64, window: u64)
    ensures
        prune(hits, now, window).len() <= hits.len(),
        prune(hits, now, window) == hits.subrange(hits.len() - prune(hits, now, window).len(), hits.len() as int),
    decreases hits.len(),
{
    if hits.len() > 0 && now >= hits[0] && now - hits[0] >= window {
        lemma_prune_suffix(hits.drop_first(), now, window);
        let p = prune(hits.drop_first(), now, window);
        assert(hits.drop_first().subrange(hits.drop_first().len() - p.len(), hits.drop_first().len() as int) =~= hits.subrange(hits.len() - p.len(), hits.len() as int));
    } else {
        assert(hits.subrange(0, hits.len() as int) =~= hits);
    }
}

impl RateLimiter {
    /// The floors that construction and updates keep.
    pub closed spec fn wf(&self) -> bool {
        self.min_interval_ms >= 50 && self.budget >= 1 && self.window_ms >= 100
    }

    /// The limiter's state.
    pub closed spec fn state(&self) -> LimiterView {
        (self.min_interval_ms, self.budget, self.window_ms, self.hits@)
    }

    /// A limiter with a one-minute window.
    pub fn new(interval_ms: u64, minutely_budget: usize) -> (r: Self)
        ensures
            r.wf(),
            r.state() == ((if interval_ms < 50 { 50 } else { interval_ms }), (if minutely_budget < 1 { 1 } else { minutely_budget }), 60_000u64, Seq::<u64>::empty()),
    {
        Self::with_window(interval_ms, minutely_budget, 60_000)
    }

    /// A limiter with the given window; the spacing is at least 50 ms, the budget at
    /// least 1 and the window at least 100 ms.
    pub fn with_window(interval_ms: u64, minutely_budget: usize, window_ms: u64) -> (r: Self)
        ensures
            r.wf(),
            r.state() == ((if interval_ms < 50 { 50 } else { interval_ms }), (if minutely_budget < 1 { 1 } else { minutely_budget }), (if window_ms < 100 { 100 } else { window_ms }), Seq::<u64>::empty()),
    {
        Self {
            min_interval_ms: if interval_ms < 50 { 50 } else { interval_ms },
            budget: if minutely_budget < 1 { 1 } else { minutely_budget },
            window_ms: if window_ms < 100 { 100 } else { window_ms },
            hits: VecDeque::new(),
        }
    }

    /// Sets a new spacing and budget (with the same floors); admissions and window stay.
    pub fn update_limits(&mut self, interval_ms: u64, minutely_budget: usize)
        requires
            old(self).wf(),
        ensures
            final(self).wf(),
            final(self).state() == ((if interval_ms < 50 { 50 } else { interval_ms }), (if minutely_budget < 1 { 1 } else { minutely_budget }), old(self).state().2, old(self).state().3),
    {
        self.min_interval_ms = if interval_ms < 50 { 50 } else { interval_ms };
        self.budget = if minutely_budget < 1 { 1 } else { minutely_budget };
    }

    /// Asks for a slot at `now` (see `limiter_step`).
    pub fn try_acquire(&mut self, now: u64) -> (a: Admission)
        requires
            old(self).wf(),
        ensures
            final(self).wf(),
            (final(self).state(), a) == limiter_step(old(self).state(), now),
    {
        let ghost start = self.hits@;
        while self.hits.len() > 0
            invariant
                prune(self.hits@, now, self.window_ms) == prune(start, now, self.window_ms),
                self.min_interval_ms == old(self).min_interval_ms,
                self.budget == old(self).budget,
                self.window_ms == old(self).window_ms,
                start == old(self).hits@,
                self.min_interval_ms >= 50 && self.budget >= 1 && self.window_ms >= 100,
            ensures
                prune(self.hits@, now, self.window_ms) == self.hits@,
            decreases self.hits@.len(),
        {
            let front = self.hits[0];
            if now >= front && now - front >= self.window_ms {
                let ghost before = self.hits@;
                self.hits.pop_front();
                assert(self.hits@ =~= before.drop_first());
            } else {
                break;
            }
        }
        let ghost p = prune(start, now, self.window_ms);
        assert(self.hits@ == p);
        if self.hits.len() < self.budget {
            let wait: u64 = if self.hits.len() == 0 {
                0
            } else {
                let last = self.hits[self.hits.len() - 1];
                let elapsed: u64 = if now >= last { now - last } else { 0 };
                if self.min_interval_ms >= elapsed { self.min_interval_ms - elapsed } else { 0 }
            };
            if wait == 0 {
                self.hits.push_back(now);
                Admission::Granted
            } else {
                Admission::Wait(wait)
            }
        } else {
            let oldest = self.hits[0];
            let elapsed: u64 = if now >= oldest { now - oldest } else { 0 };
            let rest: u64 = if self.window_ms >= elapsed { self.window_ms - elapsed } else { 0 };
            Admission::Wait(if rest < u64::MAX { rest + 1 } else { rest })
        }
    }
}

/// A slot is granted only with room in the budget: fewer than `budget` admissions lie
/// in the window ending at `now`, and afterwards at most `budget` do.
pub proof fn law_grant_within_budget(s: LimiterView, now: u64)
    ensures
        limiter_step(s, now).1 is Granted ==> prune(s.3, now, s.2).len() < s.1
            && limiter_step(s, now).0.3.len() <= s.1,
{
}

/// A slot is granted only once the spacing since the last admission still in the
/// window has passed.
pub proof fn law_grant_respects_spacing(s: LimiterView, now: u64)
    requires
        s.0 >= 1,
    ensures
        limiter_step(s, now).1 is Granted && prune(s.3, now, s.2).len() > 0 ==> {
            let last = prune(s.3, now, s.2).last();
            now >= last && now - last >= s.0
        },
{
}

/// A refused request leaves the admissions as they were, less those that left the
/// window, and waits at least a millisecond.
pub proof fn law_wait_keeps_admissions(s: LimiterView, now: u64)
    ensures
        limiter_step(s, now).1 matches Admission::Wait(ms) ==> ms >= 1 && limiter_step(s, now).0.3 == prune(s.3, now, s.2),
{
}

/// A run of requests at the clock readings `times`, from state `s`: the state after the
/// last one and the readings at which slots were granted, in order.
pub open spec fn limiter_run(s: LimiterView, times: Seq<u64>) -> (LimiterView, Seq<u64>)
    decreases times.len(),
{
    if times.len() == 0 {
        (s, Seq::empty())
    } else {
        let prev = limiter_run(s, times.drop_last());
        let step = limiter_step(prev.0, times.last());
        (step.0, if step.1 is Granted { prev.1.push(times.last()) } else { prev.1 })
    }
}

proof fn lemma_prune_dropped(hits: Seq<u64>, now: u64, window: u64)
    ensures
        forall|k: int| 0 <= k < hits.len() - prune(hits, now, window).len() ==> now >= #[trigger] hits[k] && now - hits[k] >= window,
    decreases hits.len(),
{
    lemma_prune_suffix(hits, now, window);
    if hits.len() > 0 && now >= hits[0] && now - hits[0] >= window {
        lemma_prune_dropped(hits.drop_first(), now, window);
        assert forall|k: int| 0 <= k < hits.len() - prune(hits, now, window).len() implies now >= #[trigger] hits[k] && now - hits[k] >= window by {
            if k > 0 {
                assert(hits[k] == hits.drop_first()[k - 1]);
            }
        }
    }
}

/// What a run from an empty limiter keeps, with `g` its grants and `last` its last
/// clock reading: the limits, the admissions as the granted suffix, the older grants
/// a window behind the last reading, and the spacing and budget of every pair of
/// grants.
pub open spec fn run_ok(min: u64, budget: usize, window: u64, st: LimiterView, g: Seq<u64>, last: Option<u64>) -> bool {
    let n = g.len() as int;
    let l = st.3.len() as int;
    &&& st.0 == min && st.1 == budget && st.2 == window
    &&& l <= n && l <= budget
    &&& st.3 == g.subrange(n - l, n)
    &&& match last {
        None => n == 0,
        Some(t) => (forall|k: int| 0 <= k < n - l ==> #[trigger] g[k] + window <= t) && (forall|k: int| 0 <= k < n ==> #[trigger] g[k] <= t),
    }
    &&& forall|i: int, j: int| 0 <= i < j < n ==> #[trigger] g[j] - #[trigger] g[i] >= min
    &&& forall|i: int, j: int| 0 <= i <= j < n && #[trigger] g[j] - #[trigger] g[i] < window ==> j - i < budget
}

/// What pruning at `now` leaves of a run's admissions: a suffix of the grants, the
/// grants before it a window behind `now`, all grants at or before `now`.
proof fn lemma_run_prune(min: u64, budget: usize, window: u64, st: LimiterView, g: Seq<u64>, last: Option<u64>, now: u64)
    requires
        run_ok(min, budget, window, st, g, last),
        last matches Some(t) ==> t <= now,
    ensures
        ({
            let p = prune(st.3, now, window);
            let n = g.len() as int;
            &&& p.len() <= st.3.len()
            &&& p == g.subrange(n - p.len(), n)
            &&& forall|k: int| 0 <= k < n - p.len() ==> #[trigger] g[k] + window <= now
            &&& forall|k: int| 0 <= k < n ==> #[trigger] g[k] <= now
        }),
{
    let h = st.3;
    let n = g.len() as int;
    let l = h.len() as int;
    let p = prune(h, now, window);
    lemma_prune_suffix(h, now, window);
    lemma_prune_dropped(h, now, window);
    assert(p =~= g.subrange(n - p.len(), n));
    assert forall|k: int| 0 <= k < n - p.len() implies #[trigger] g[k] + window <= now by {
        if k >= n - l {
            assert(h[k - (n - l)] == g[k]);
        }
    }
}

/// A granted request keeps `run_ok`.
#[verifier::rlimit(40)]
proof fn lemma_run_grant(min: u64, budget: usize, window: u64, st: LimiterView, g: Seq<u64>, last: Option<u64>, now: u64)
    requires
        1 <= min <= window,
        run_ok(min, budget, window, st, g, last),
        last matches Some(t) ==> t <= now,
        limiter_step(st, now).1 is Granted,
    ensures
        run_ok(min, budget, window, limiter_step(st, now).0, g.push(now), Some(now)),
{
    lemma_run_prune(min, budget, window, st, g, last, now);
    let p = prune(st.3, now, window);
    let pl = p.len() as int;
    let n1 = g.len() as int;
    let g2 = g.push(now);
    let n = n1 + 1;
    if n1 > 0 {
        if pl > 0 {
            assert(p.last() == g[n1 - 1]);
        } else {
            assert(g[n1 - 1] + window <= now);
        }
        assert(now - g[n1 - 1] >= min);
    }
    assert forall|i: int, j: int| 0 <= i < j < n implies #[trigger] g2[j] - #[trigger] g2[i] >= min by {
        if j == n1 {
            assert(g2[i] == g[i]);
            if i < n1 - 1 {
                assert(g[n1 - 1] - g[i] >= min);
            }
        } else {
            assert(g2[i] == g[i] && g2[j] == g[j]);
        }
    }
    assert forall|i: int, j: int| 0 <= i <= j < n && #[trigger] g2[j] - #[trigger] g2[i] < window implies j - i < budget by {
        if j == n1 {
            if i < n1 {
                assert(g2[i] == g[i]);
                if i < n1 - pl {
                    assert(g[i] + window <= now);
                }
            }
        } else {
            assert(g2[i] == g[i] && g2[j] == g[j]);
        }
    }
    assert(limiter_step(st, now).0.3 =~= g2.subrange(n - (pl + 1), n));
    assert forall|k: int| 0 <= k < n implies #[trigger] g2[k] <= now by {
        if k < n1 {
            assert(g2[k] == g[k]);
        }
    }
    assert forall|k: int| 0 <= k < n - (pl + 1) implies #[trigger] g2[k] + window <= now by {
        assert(g2[k] == g[k]);
    }
}

/// A refused request keeps `run_ok`.
proof fn lemma_run_wait(min: u64, budget: usize, window: u64, st: LimiterView, g: Seq<u64>, last: Option<u64>, now: u64)
    requires
        run_ok(min, budget, window, st, g, last),
        last matches Some(t) ==> t <= now,
        !(limiter_step(st, now).1 is Granted),
    ensures
        run_ok(min, budget, window, limiter_step(st, now).0, g, Some(now)),
{
    lemma_run_prune(min, budget, window, st, g, last, now);
}

proof fn lemma_run_invariant(min: u64, budget: usize, window: u64, times: Seq<u64>)
    requires
        1 <= min <= window,
        budget >= 1,
        forall|i: int, j: int| 0 <= i < j < times.len() ==> times[i] <= times[j],
    ensures
        run_ok(min, budget, window, limiter_run((min, budget, window, Seq::empty()), times).0,
            limiter_run((min, budget, window, Seq::empty()), times).1,
            if times.len() == 0 { None } else { Some(times.last()) }),
    decreases times.len(),
{
    let s0: LimiterView = (min, budget, window, Seq::empty());
    if times.len() == 0 {
        assert(s0.3 =~= Seq::<u64>::empty().subrange(0, 0));
        return;
    }
    let tp = times.drop_last();
    let now = times.last();
    lemma_run_invariant(min, budget, window, tp);
    let prev = limiter_run(s0, tp);
    let last = if tp.len() == 0 { None } else { Some(tp.last()) };
    if tp.len() > 0 {
        assert(tp.last() == times[times.len() - 2]);
    }
    if limiter_step(prev.0, now).1 is Granted {
        lemma_run_grant(min, budget, window, prev.0, prev.1, last, now);
    } else {
        lemma_run_wait(min, budget, window, prev.0, prev.1, last, now);
    }
}

/// Over any run of requests on a clock that does not go back, from an empty limiter
/// whose spacing does not exceed its window: two granted slots lie at least the
/// spacing apart, and no window holds more grants than the budget (of grants less than
/// a window apart, at most `budget` in a row).
pub proof fn law_run_spacing_and_budget(min: u64, budget: usize, window: u64, times: Seq<u64>)
    requires
        1 <= min <= window,
        budget >= 1,
        forall|i: int, j: int| 0 <= i < j < times.len() ==> times[i] <= times[j],
    ensures
        ({
            let g = limiter_run((min, budget, window, Seq::empty()), times).1;
            &&& forall|i: int, j: int| 0 <= i < j < g.len() ==> #[trigger] g[j] - #[trigger] g[i] >= min
            &&& forall|i: int, j: int| 0 <= i <= j < g.len() && #[trigger] g[j] - #[trigger] g[i] < window ==> j - i < budget
        }),
{
    lemma_run_invariant(min, budget, window, times);
}

} // verus!
