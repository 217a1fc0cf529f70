//! The production finality judger: a bar is final once its minimum settle time has
//! passed, which is longer for a bar that closes a trading session.
use vstd::prelude::*;

use crate::clock::{chrono_parse_datetime, chrono_seconds_between, parse_datetime, seconds_between};

verus! {

/// Settle-time policy for 5m bars.
#[derive(Debug, Clone, Copy)]
pub struct FinalityPolicy {
    /// Minimum settle time of an ordinary bar, in seconds.
    pub ordinary_settle_secs: i64,
    /// Minimum settle time of a session-closing bar, in seconds.
    pub close_settle_secs: i64,
    /// When off, every bar counts as final.
    pub enabled: bool,
}

impl Default for FinalityPolicy {
    fn default() -> (p: Self)
        ensures
            p.ordinary_settle_secs == 30,
            p.close_settle_secs == 75,
            p.enabled,
    {
        FinalityPolicy { ordinary_settle_secs: 30, close_settle_secs: 75, enabled: true }
    }
}

/// Finality of a bar.
#[derive(Debug, Clone, Copy, PartialEq, Eq, Hash, Structural)]
pub enum FinalityStatus {
    /// Still inside its settle window: the source may still change it.
    Candidate,
    /// Settled: safe to store and derive from.
    Final,
}

/// The bar closing at `(hour, minute)` closes a session of a symbol whose session
/// close times are `closes`.
pub open spec fn closes_session(closes: Seq<(u32, u32)>, hour: u32, minute: u32) -> bool {
    exists|k: int| 0 <= k < closes.len() && closes[k] == (hour, minute)
}

/// Judges bar finality under a policy.
#[derive(Debug, Clone, Copy)]
pub struct FinalityJudger {
    policy: FinalityPolicy,
}

impl Default for FinalityJudger {
    fn default() -> (j: Self)
        ensures
            j.policy_view() == (FinalityPolicy { ordinary_settle_secs: 30, close_settle_secs: 75, enabled: true }),
    {
        Self::new(FinalityPolicy::default())
    }
}

impl FinalityJudger {
    /// The policy in force.
    pub closed spec fn policy_view(&self) -> FinalityPolicy {
        self.policy
    }

    pub fn new(policy: FinalityPolicy) -> (j: Self)
        ensures
            j.policy_view() == policy,
    {
        FinalityJudger { policy }
    }

    pub fn policy(&self) -> (p: &FinalityPolicy)
        ensures
            *p == self.policy_view(),
    {
        &self.policy
    }

    /// The settle time required of the bar closing at `(hour, minute)`, for a symbol
    /// whose session close times are `session_closes`.
    pub fn required_settle_secs(&self, session_closes: &[(u32, u32)], hour: u32, minute: u32) -> (r: i64)
        ensures
            r == if closes_session(session_closes@, hour, minute) {
                self.policy_view().close_settle_secs
            } else {
                self.policy_view().ordinary_settle_secs
            },
    {
        let mut k: usize = 0;
        while k < session_closes.len()
            invariant
                k <= session_closes@.len(),
                forall|j: int| 0 <= j < k ==> session_closes@[j] != (hour, minute),
            decreases session_closes@.len() - k,
        {
            if session_closes[k].0 == hour && session_closes[k].1 == minute {
                return self.policy.close_settle_secs;
            }
            k += 1;
        }
        self.policy.ordinary_settle_secs
    }

    /// Judges a bar closing at `(hour, minute)` that was first published
    /// `elapsed_secs` ago.
    pub fn evaluate_elapsed(&self, session_closes: &[(u32, u32)], hour: u32, minute: u32, elapsed_secs: i64) -> (s: FinalityStatus)
        ensures
            s == if !self.policy_view().enabled || elapsed_secs >= (if closes_session(session_closes@, hour, minute) {
                self.policy_view().close_settle_secs
            } else {
                self.policy_view().ordinary_settle_secs
            }) {
                FinalityStatus::Final
            } else {
                FinalityStatus::Candidate
            },
    {
        if !self.policy.enabled {
            return FinalityStatus::Final;
        }
        let required = self.required_settle_secs(session_closes, hour, minute);
        if elapsed_secs >= required {
            FinalityStatus::Final
        } else {
            FinalityStatus::Candidate
        }
    }

    /// Judges the bar stamped `bar_dt` at the moment `now` (calendar fields); the
    /// elapsed time is chrono's whole seconds between them. Field sets that are not a
    /// valid moment give `None`.
    pub fn evaluate_bar(
        &self,
        session_closes: &[(u32, u32)],
        bar_dt: (i32, u32, u32, u32, u32, u32),
        now: (i32, u32, u32, u32, u32, u32),
    ) -> (s: Option<FinalityStatus>)
        ensures
            !self.policy_view().enabled ==> s == Some(FinalityStatus::Final),
            self.policy_view().enabled ==> s == match chrono_seconds_between(now, bar_dt) {
                Some(e) => Some(if e >= (if closes_session(session_closes@, bar_dt.3, bar_dt.4) {
                    self.policy_view().close_settle_secs
                } else {
                    self.policy_view().ordinary_settle_secs
                }) {
                    FinalityStatus::Final
                } else {
                    FinalityStatus::Candidate
                }),
                None => None,
            },
    {
        if !self.policy.enabled {
            return Some(FinalityStatus::Final);
        }
        match seconds_between(now, bar_dt) {
            Some(e) => Some(self.evaluate_elapsed(session_closes, bar_dt.3, bar_dt.4, e)),
            None => None,
        }
    }

    /// Whether the bar is final (an invalid moment is not).
    pub fn is_bar_final(
        &self,
        session_closes: &[(u32, u32)],
        bar_dt: (i32, u32, u32, u32, u32, u32),
        now: (i32, u32, u32, u32, u32, u32),
    ) -> (b: bool)
        ensures
            !self.policy_view().enabled ==> b,
            self.policy_view().enabled ==> b == match chrono_seconds_between(now, bar_dt) {
                Some(e) => e >= (if closes_session(session_closes@, bar_dt.3, bar_dt.4) {
                    self.policy_view().close_settle_secs
                } else {
                    self.policy_view().ordinary_settle_secs
                }),
                None => false,
            },
    {
        match self.evaluate_bar(session_closes, bar_dt, now) {
            Some(FinalityStatus::Final) => true,
            _ => false,
        }
    }

    /// Seconds still to wait before a bar `elapsed_secs` old is final (0 once final).
    pub fn remaining_settle_secs(&self, session_closes: &[(u32, u32)], hour: u32, minute: u32, elapsed_secs: i64) -> (r: i64)
        requires
            i64::MIN <= self.policy_view().ordinary_settle_secs - elapsed_secs <= i64::MAX,
            i64::MIN <= self.policy_view().close_settle_secs - elapsed_secs <= i64::MAX,
        ensures
            !self.policy_view().enabled ==> r == 0,
            self.policy_view().enabled ==> r == ({
                let req = if closes_session(session_closes@, hour, minute) {
                    self.policy_view().close_settle_secs
                } else {
                    self.policy_view().ordinary_settle_secs
                };
                if req - elapsed_secs > 0 {
                    req - elapsed_secs
                } else {
                    0
                }
            }),
    {
        if !self.policy.enabled {
            return 0;
        }
        let required = self.required_settle_secs(session_closes, hour, minute);
        if required - elapsed_secs > 0 {
            required - elapsed_secs
        } else {
            0
        }
    }

    /// The positions of the bars (by `%Y-%m-%d %H:%M:%S` timestamp) that are final at
    /// `now`; a timestamp that does not read is kept, and with the policy off all are.
    pub fn filter_final_rows(
        &self,
        session_closes: &[(u32, u32)],
        datetimes: &[String],
        now: (i32, u32, u32, u32, u32, u32),
    ) -> (kept: Vec<usize>)
        ensures
            kept@ == Seq::new(datetimes@.len(), |i: int| i as usize).filter(|i: usize| self.keeps(session_closes@, datetimes@[i as int]@, now)),
    {
        let mut kept: Vec<usize> = Vec::new();
        let mut i: usize = 0;
        let ghost pred = |i: usize| self.keeps(session_closes@, datetimes@[i as int]@, now);
        while i < datetimes.len()
            invariant
                i <= datetimes@.len(),
                pred == (|i: usize| self.keeps(session_closes@, datetimes@[i as int]@, now)),
                kept@ == Seq::new(i as nat, |j: int| j as usize).filter(pred),
            decreases datetimes@.len() - i,
        {
            let keep = if !self.policy.enabled {
                true
            } else {
                match parse_datetime(datetimes[i].as_str()) {
                    Some(bar_dt) => self.is_bar_final(session_closes, bar_dt, now),
                    None => true,
                }
            };
            proof {
                let s1 = Seq::new((i + 1) as nat, |j: int| j as usize);
                let s0 = Seq::new(i as nat, |j: int| j as usize);
                assert(s1.drop_last() =~= s0);
                assert(s1.last() == i);
                reveal_with_fuel(Seq::<_>::filter, 1);
                assert(keep == pred(i));
            }
            if keep {
                kept.push(i);
            }
            i += 1;
        }
        kept
    }

    /// The judger keeps the bar stamped `ts` at `now`.
    pub open spec fn keeps(&self, closes: Seq<(u32, u32)>, ts: Seq<char>, now: (i32, u32, u32, u32, u32, u32)) -> bool {
        !self.policy_view().enabled || match chrono_parse_datetime(ts) {
            Some(b) => match chrono_seconds_between(now, b) {
                Some(e) => e >= (if closes_session(closes, b.3, b.4) {
                    self.policy_view().close_settle_secs
                } else {
                    self.policy_view().ordinary_settle_secs
                }),
                None => false,
            },
            None => true,
        }
    }
}

} // verus!
