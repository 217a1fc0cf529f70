//! The health of a hybrid data source: TianQin as primary, Sina as fallback.
//!
//! TianQin is trusted only after a real health probe. Three consecutive request
//! failures switch to Sina; switching back needs two consecutive healthy probes after a
//! cooldown. Every switch is announced by an event. The clock and the network stay
//! with the caller, which reports what happened and acts on the decisions.
use vstd::prelude::*;

use crate::text::{chars_of, owned, push_str, seq_eq, string_from_chars};

verus! {

/// A switch between data sources.
#[derive(Debug, Clone)]
pub struct DataSourceEvent {
    pub from: String,
    pub to: String,
    pub reason: String,
}

/// The text of an event: (from, to, reason).
pub open spec fn event_view(e: DataSourceEvent) -> (Seq<char>, Seq<char>, Seq<char>) {
    (e.from@, e.to@, e.reason@)
}

/// The text of an optional event.
pub open spec fn opt_event(e: Option<DataSourceEvent>) -> Option<(Seq<char>, Seq<char>, Seq<char>)> {
    match e {
        Some(x) => Some(event_view(x)),
        None => None,
    }
}

/// The health state: whether TianQin is in use, and the current runs of request
/// failures and of healthy probes.
pub struct SourceHealth {
    pub tq_available: bool,
    pub consecutive_failures: u32,
    pub consecutive_successes: u32,
}

/// (available, failures, successes).
pub type HealthView = (bool, u32, u32);

/// The reason given when two healthy probes bring TianQin back.
pub open spec fn recovery_reason() -> Seq<char> {
    "天勤数据源探活确认稳定恢复，已自动切回主力天勤数据源"@
}

/// The reason given when a failed probe demotes TianQin.
pub open spec fn probe_failed_reason() -> Seq<char> {
    "天勤桥接服务健康检查失败，当前使用新浪备用数据源"@
}

/// The reason given when request failures demote TianQin.
pub open spec fn failover_reason(err: Seq<char>) -> Seq<char> {
    "天勤接口请求异常（"@ + err + "），已自动降级切换至新浪数据源"@
}

/// An event from `a` to `b`.
pub open spec fn switch(a: Seq<char>, b: Seq<char>, reason: Seq<char>) -> Option<(Seq<char>, Seq<char>, Seq<char>)> {
    Some((a, b, reason))
}

/// Demoting TianQin at once: counters reset; an event (TianQin to Sina) only when it
/// was in use and the caller asks for one.
pub open spec fn mark_unavailable_step(s: HealthView, reason: Seq<char>, emit: bool) -> (HealthView, Option<(Seq<char>, Seq<char>, Seq<char>)>) {
    ((false, 0, 0), if emit && s.0 {
        switch("tqsdk"@, "sina"@, reason)
    } else {
        None
    })
}

/// The outcome of a real probe: healthy puts TianQin in use (an event, Sina to
/// TianQin, when it was not and the caller asks for one); unhealthy demotes it with
/// the probe-failure reason.
pub open spec fn probe_step(s: HealthView, healthy: bool, reason: Seq<char>, emit: bool) -> (HealthView, Option<(Seq<char>, Seq<char>, Seq<char>)>) {
    if !healthy {
        mark_unavailable_step(s, probe_failed_reason(), emit)
    } else {
        ((true, 0, 0), if emit && !s.0 {
            switch("sina"@, "tqsdk"@, reason)
        } else {
            None
        })
    }
}

/// A periodic health check. Healthy while in use: the failure run resets. Healthy
/// while demoted: nothing during the cooldown; after it, the healthy run grows and at
/// two TianQin is back (with an event). Unhealthy: the healthy run resets. The first
/// component of the answer is whether TianQin is usable now.
pub open spec fn check_step(s: HealthView, healthy: bool, in_cooldown: bool) -> (HealthView, bool, Option<(Seq<char>, Seq<char>, Seq<char>)>) {
    let (avail, fails, succ) = s;
    if healthy {
        if avail {
            ((avail, 0, succ), true, None)
        } else if in_cooldown {
            (s, false, None)
        } else if succ + 1 >= 2 {
            ((true, 0, 0), true, switch("sina"@, "tqsdk"@, recovery_reason()))
        } else {
            ((avail, fails, (succ + 1) as u32), false, None)
        }
    } else {
        ((avail, fails, 0), false, None)
    }
}

/// A failed TianQin request: the healthy run resets and the failure run grows; at
/// three, TianQin is demoted (with an event) if it was in use.
pub open spec fn failure_step(s: HealthView, err: Seq<char>) -> (HealthView, Option<(Seq<char>, Seq<char>, Seq<char>)>) {
    let (avail, fails, succ) = s;
    let n = fails + 1;
    let stored = if fails == u32::MAX { 0u32 } else { (fails + 1) as u32 };
    if n >= 3 && avail {
        ((false, stored, 0), switch("tqsdk"@, "sina"@, failover_reason(err)))
    } else {
        ((avail, stored, 0), None)
    }
}

/// A successful TianQin request resets the failure run.
pub open spec fn success_step(s: HealthView) -> HealthView {
    (s.0, 0, s.2)
}

/// Where a request goes.
#[derive(Debug, Clone, Copy, PartialEq, Eq, Structural)]
pub enum Route {
    /// Ask TianQin.
    Tq,
    /// Run a health check first (its answer decides).
    CheckHealth,
    /// Ask Sina.
    Sina,
}

/// What was got from TianQin.
#[derive(Debug, Clone, Copy, PartialEq, Eq, Structural)]
pub enum TqOutcome {
    Data,
    Empty,
    Failed,
}

/// What to do after asking TianQin.
#[derive(Debug, Clone, Copy, PartialEq, Eq, Structural)]
pub enum FetchStep {
    /// Hand back what TianQin gave.
    Return,
    /// Ask Sina instead.
    Fallback,
    /// Fail: TianQin gave nothing and falling back is disabled.
    Refuse,
}

impl SourceHealth {
    pub open spec fn view(&self) -> HealthView {
        (self.tq_available, self.consecutive_failures, self.consecutive_successes)
    }

    /// The healthy run never reaches two without TianQin coming back.
    pub open spec fn wf(&self) -> bool {
        self.consecutive_successes <= 1
    }

    /// The starting state: TianQin not in use until a real probe says so.
    pub fn new() -> (h: Self)
        ensures
            h.view() == (false, 0u32, 0u32),
            h.wf(),
    {
        Self { tq_available: false, consecutive_failures: 0, consecutive_successes: 0 }
    }

    /// Forgets everything (a new bridge port): TianQin not in use, counters reset.
    pub fn reset(&mut self)
        ensures
            final(self).view() == (false, 0u32, 0u32),
            final(self).wf(),
    {
        self.tq_available = false;
        self.consecutive_failures = 0;
        self.consecutive_successes = 0;
    }

    /// The name of the source in its current state.
    pub fn name(&self) -> (s: &'static str)
        ensures
            s@ == (if self.tq_available { "hybrid(tqsdk->sina)"@ } else { "hybrid(sina-fallback)"@ }),
    {
        if self.tq_available {
            "hybrid(tqsdk->sina)"
        } else {
            "hybrid(sina-fallback)"
        }
    }

    /// Demotes TianQin at once (see `mark_unavailable_step`).
    pub fn mark_unavailable(&mut self, reason: &str, emit_event: bool) -> (e: Option<DataSourceEvent>)
        ensures
            (final(self).view(), opt_event(e)) == mark_unavailable_step(old(self).view(), reason@, emit_event),
            final(self).wf(),
    {
        let was = self.tq_available;
        self.tq_available = false;
        self.consecutive_failures = 0;
        self.consecutive_successes = 0;
        if emit_event && was {
            Some(DataSourceEvent { from: owned("tqsdk"), to: owned("sina"), reason: owned(reason) })
        } else {
            None
        }
    }

    /// Takes in a real probe's result (see `probe_step`); answers whether TianQin is
    /// now in use.
    pub fn apply_probe(&mut self, healthy: bool, reason: &str, emit_event: bool) -> (r: (bool, Option<DataSourceEvent>))
        ensures
            (final(self).view(), opt_event(r.1)) == probe_step(old(self).view(), healthy, reason@, emit_event),
            r.0 == healthy,
            final(self).wf(),
    {
        if !healthy {
            let e = self.mark_unavailable("天勤桥接服务健康检查失败，当前使用新浪备用数据源", emit_event);
            return (false, e);
        }
        let was = self.tq_available;
        self.tq_available = true;
        self.consecutive_failures = 0;
        self.consecutive_successes = 0;
        if emit_event && !was {
            (true, Some(DataSourceEvent { from: owned("sina"), to: owned("tqsdk"), reason: owned(reason) }))
        } else {
            (true, None)
        }
    }

    /// Takes in a periodic health check (see `check_step`).
    pub fn apply_check(&mut self, healthy: bool, in_cooldown: bool) -> (r: (bool, Option<DataSourceEvent>))
        requires
            old(self).wf(),
        ensures
            (final(self).view(), r.0, opt_event(r.1)) == check_step(old(self).view(), healthy, in_cooldown),
            final(self).wf(),
    {
        if healthy {
            if self.tq_available {
                self.consecutive_failures = 0;
                return (true, None);
            }
            if in_cooldown {
                return (false, None);
            }
            let succ = self.consecutive_successes + 1;
            if succ >= 2 {
                self.tq_available = true;
                self.consecutive_failures = 0;
                self.consecutive_successes = 0;
                return (
                    true,
                    Some(
                        DataSourceEvent {
                            from: owned("sina"),
                            to: owned("tqsdk"),
                            reason: owned("天勤数据源探活确认稳定恢复，已自动切回主力天勤数据源"),
                        },
                    ),
                );
            }
            self.consecutive_successes = succ;
            (false, None)
        } else {
            self.consecutive_successes = 0;
            (false, None)
        }
    }

    /// Takes in a failed TianQin request whose error reads `err` (see `failure_step`).
    pub fn record_failure(&mut self, err: &str) -> (e: Option<DataSourceEvent>)
        requires
            old(self).wf(),
        ensures
            (final(self).view(), opt_event(e)) == failure_step(old(self).view(), err@),
            final(self).wf(),
    {
        self.consecutive_successes = 0;
        let fails: u64 = self.consecutive_failures as u64 + 1;
        self.consecutive_failures = if self.consecutive_failures == u32::MAX { 0 } else { self.consecutive_failures + 1 };
        if fails >= 3 && self.tq_available {
            self.tq_available = false;
            let mut r: Vec<char> = Vec::new();
            push_str(&mut r, "天勤接口请求异常（");
            push_str(&mut r, err);
            push_str(&mut r, "），已自动降级切换至新浪数据源");
            Some(DataSourceEvent { from: owned("tqsdk"), to: owned("sina"), reason: string_from_chars(r.as_slice()) })
        } else {
            None
        }
    }

    /// Takes in a successful TianQin request (see `success_step`).
    pub fn record_success(&mut self)
        ensures
            final(self).view() == success_step(old(self).view()),
            old(self).wf() ==> final(self).wf(),
    {
        self.consecutive_failures = 0;
    }

    /// Where a request goes: to Sina when TianQin is not the configured primary; to
    /// TianQin while it is in use; otherwise through a health check when one is due
    /// (the last is more than ten seconds old), else to Sina.
    pub fn route(&self, primary_is_tq: bool, check_due: bool) -> (r: Route)
        ensures
            r == (if !primary_is_tq {
                Route::Sina
            } else if self.tq_available {
                Route::Tq
            } else if check_due {
                Route::CheckHealth
            } else {
                Route::Sina
            }),
    {
        if !primary_is_tq {
            Route::Sina
        } else if self.tq_available {
            Route::Tq
        } else if check_due {
            Route::CheckHealth
        } else {
            Route::Sina
        }
    }
}

/// What to do after asking TianQin: data is handed back; an empty answer or a failure
/// falls back to Sina when that is enabled and fails otherwise.
pub fn after_tq(outcome: TqOutcome, fallback_enabled: bool) -> (s: FetchStep)
    ensures
        s == (match outcome {
            TqOutcome::Data => FetchStep::Return,
            _ => if fallback_enabled {
                FetchStep::Fallback
            } else {
                FetchStep::Refuse
            },
        }),
{
    match outcome {
        TqOutcome::Data => FetchStep::Return,
        _ => if fallback_enabled {
            FetchStep::Fallback
        } else {
            FetchStep::Refuse
        },
    }
}

/// Whether a request that skipped TianQin must fail instead of going to Sina: when
/// TianQin is the configured primary and falling back is disabled.
pub fn refuse_without_tq(primary_is_tq: bool, fallback_enabled: bool) -> (r: bool)
    ensures
        r == (primary_is_tq && !fallback_enabled),
{
    primary_is_tq && !fallback_enabled
}

/// Whether `s` is among `list`.
fn contains_text(list: &[String], s: &str) -> (r: bool)
    ensures
        r == exists|i: int| 0 <= i < list.len() && list@[i]@ == s@,
{
    let t = chars_of(s);
    let mut i: usize = 0;
    while i < list.len()
        invariant
            i <= list.len(),
            t@ == s@,
            forall|j: int| 0 <= j < i ==> list@[j]@ != s@,
        decreases list.len() - i,
    {
        let c = chars_of(list[i].as_str());
        if seq_eq(c.as_slice(), t.as_slice()) {
            return true;
        }
        i = i + 1;
    }
    false
}

/// The codes TianQin did not answer for, in the order asked.
pub open spec fn missing(codes: Seq<Seq<char>>, returned: Seq<Seq<char>>) -> Seq<Seq<char>> {
    codes.filter(|c: Seq<char>| !returned.contains(c))
}

/// The requested codes that are not among the returned ones, in order.
pub fn missing_codes(codes: &[String], returned: &[String]) -> (r: Vec<String>)
    ensures
        crate::text::views(r@) == missing(crate::text::views(codes@), crate::text::views(returned@)),
{
    let ghost rv = crate::text::views(returned@);
    let mut out: Vec<String> = Vec::new();
    let mut i: usize = 0;
    while i < codes.len()
        invariant
            i <= codes.len(),
            rv == crate::text::views(returned@),
            crate::text::views(out@) == missing(crate::text::views(codes@).subrange(0, i as int), rv),
        decreases codes.len() - i,
    {
        let ghost cv = crate::text::views(codes@);
        let found = contains_text(returned, codes[i].as_str());
        proof {
            assert(cv.subrange(0, i as int + 1) =~= cv.subrange(0, i as int).push(cv[i as int]));
            reveal(Seq::filter);
            assert(cv.subrange(0, i as int + 1).drop_last() =~= cv.subrange(0, i as int));
            assert(cv.subrange(0, i as int + 1).last() == cv[i as int]);
            assert(cv[i as int] == codes@[i as int]@);
            if found {
                let j = choose|j: int| 0 <= j < returned.len() && returned@[j]@ == codes@[i as int]@;
                assert(rv[j] == returned@[j]@);
                assert(rv.contains(cv[i as int]));
            } else {
                assert forall|j: int| 0 <= j < rv.len() implies rv[j] != cv[i as int] by {
                    assert(rv[j] == returned@[j]@);
                }
            }
        }
        if !found {
            let ghost before = out@;
            out.push(owned(codes[i].as_str()));
            proof {
                assert(crate::text::views(out@) =~= crate::text::views(before).push(codes@[i as int]@));
            }
        }
        i = i + 1;
    }
    proof {
        assert(crate::text::views(codes@).subrange(0, codes.len() as int) =~= crate::text::views(codes@));
    }
    out
}

/// Failing over takes three consecutive failed requests: a failure that demotes
/// TianQin had at least two failures before it, and a success in between resets the
/// run.
pub proof fn law_failover_needs_three_failures(s: HealthView, err: Seq<char>)
    ensures
        failure_step(s, err).1 is Some ==> s.0 && s.1 >= 2,
        failure_step(success_step(s), err).1 is None,
        failure_step(failure_step(success_step(s), err).0, err).1 is None,
{
}

/// Coming back takes two consecutive healthy checks after the cooldown: from a
/// demoted state with no healthy run, one healthy check leaves TianQin out, a second
/// brings it back, and an unhealthy check between them starts over.
pub proof fn law_recovery_needs_two_healthy_checks(s: HealthView)
    requires
        !s.0,
        s.2 == 0,
    ensures
        !check_step(s, true, false).0.0,
        !check_step(s, true, false).1,
        check_step(check_step(s, true, false).0, true, false).0.0,
        check_step(check_step(s, true, false).0, true, false).2 is Some,
        !check_step(check_step(check_step(s, true, false).0, false, false).0, true, false).0.0,
        !check_step(s, true, true).0.0,
{
}

/// Starting up and resetting never trust TianQin: it comes into use only through a
/// healthy probe or a healthy check.
pub proof fn law_no_switch_without_evidence(s: HealthView, err: Seq<char>, reason: Seq<char>, emit: bool)
    requires
        !s.0,
    ensures
        !failure_step(s, err).0.0,
        !mark_unavailable_step(s, reason, emit).0.0,
        !check_step(s, false, false).0.0,
        !probe_step(s, false, reason, emit).0.0,
{
}

} // verus!
