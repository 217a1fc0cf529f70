//! The state machine that follows the finality of one bar across probes.
use vstd::prelude::*;

use crate::clock::local_now_millis_text;
use crate::finality::model::{
    signature_text, BarFingerprint, FingerprintModel, SessionType, FinalityTrial, session_name,
};
use crate::text::{clone_opt, opt_view, owned};

verus! {

/// What one probe changed.
#[derive(Debug, Clone, PartialEq, Eq)]
pub struct ProbeResult {
    pub is_revision: bool,
    pub became_candidate_final: bool,
    pub became_false_final: bool,
    pub same_count: usize,
}

/// Finality progress of one bar.
#[derive(Debug, Clone)]
pub struct BarFinalityTracker {
    pub symbol: String,
    pub bar_ts: String,
    pub session_type: SessionType,
    pub first_seen_at: Option<String>,
    pub first_seen_delay_ms: Option<i64>,
    pub last_fingerprint: Option<BarFingerprint>,
    pub same_count: usize,
    pub candidate_final_at: Option<String>,
    pub candidate_delay_ms: Option<i64>,
    pub candidate_fingerprint: Option<String>,
    pub revision_count: usize,
    pub last_revision_at: Option<String>,
    pub last_revision_delay_ms: Option<i64>,
    pub false_final: bool,
    pub final_fingerprint: Option<String>,
    pub probe_count: usize,
    pub created_at: String,
}

/// The consecutive identical probes needed for a candidate final.
pub open spec fn stable_required() -> nat {
    3
}

/// The text of an optional fingerprint.
pub open spec fn opt_model(o: Option<BarFingerprint>) -> Option<FingerprintModel> {
    match o {
        Some(f) => Some(f.model()),
        None => None,
    }
}

/// The part of a tracker that the probes drive.
pub struct TrackerCore {
    pub last: Option<FingerprintModel>,
    pub same_count: nat,
    pub candidate: bool,
    pub false_final: bool,
    pub revisions: nat,
    pub probes: nat,
}

/// The tracker before any probe.
pub open spec fn initial_core() -> TrackerCore {
    TrackerCore {
        last: None,
        same_count: 0,
        candidate: false,
        false_final: false,
        revisions: 0,
        probes: 0,
    }
}

/// One probe seen by the tracker: an identical fingerprint extends the run of equal
/// probes, and the run's third probe makes the bar a candidate final (once); a
/// different fingerprint is a revision that restarts the run and, after a candidate
/// final, marks the bar a false final.
pub open spec fn probe_step(c: TrackerCore, fp: FingerprintModel) -> TrackerCore {
    match c.last {
        None => TrackerCore { last: Some(fp), same_count: 1, probes: c.probes + 1, ..c },
        Some(l) => if l == fp {
            let n = c.same_count + 1;
            TrackerCore {
                same_count: n,
                candidate: c.candidate || n == stable_required(),
                probes: c.probes + 1,
                ..c
            }
        } else {
            TrackerCore {
                last: Some(fp),
                same_count: 1,
                false_final: c.false_final || c.candidate,
                revisions: c.revisions + 1,
                probes: c.probes + 1,
                ..c
            }
        },
    }
}

/// The tracker after a run of probes, from its initial state.
pub open spec fn run_probes(fps: Seq<FingerprintModel>) -> TrackerCore
    decreases fps.len(),
{
    if fps.len() == 0 {
        initial_core()
    } else {
        probe_step(run_probes(fps.drop_last()), fps.last())
    }
}

/// Three consecutive identical probes occur in the run.
pub open spec fn has_stable_window(fps: Seq<FingerprintModel>) -> bool {
    exists|i: int| 0 <= i && i + 2 < fps.len() && #[trigger] fps[i] == fps[i + 1] && fps[i + 1] == fps[i + 2]
}

/// Three consecutive identical probes occur in the run and a probe that differs from
/// its predecessor comes after them.
pub open spec fn has_revision_after_window(fps: Seq<FingerprintModel>) -> bool {
    exists|i: int, k: int|
        0 <= i && i + 2 < k < fps.len() && #[trigger] fps[i] == fps[i + 1] && fps[i + 1] == fps[i
            + 2] && #[trigger] fps[k] != fps[k - 1]
}

/// The number of trailing probes equal to the last one.
pub open spec fn tail_run(fps: Seq<FingerprintModel>) -> nat
    decreases fps.len(),
{
    if fps.len() <= 1 {
        fps.len()
    } else if fps[fps.len() - 1] == fps[fps.len() - 2] {
        tail_run(fps.drop_last()) + 1
    } else {
        1
    }
}

proof fn lemma_tail_run(fps: Seq<FingerprintModel>)
    ensures
        fps.len() > 0 ==> 1 <= tail_run(fps) <= fps.len(),
        forall|j: int| fps.len() - tail_run(fps) <= j < fps.len() ==> fps[j] == fps.last(),
    decreases fps.len(),
{
    if fps.len() > 1 {
        let p = fps.drop_last();
        lemma_tail_run(p);
        if fps[fps.len() - 1] == fps[fps.len() - 2] {
            assert forall|j: int| fps.len() - tail_run(fps) <= j < fps.len() implies fps[j]
                == fps.last() by {
                if j < fps.len() - 1 {
                    assert(p[j] == p.last());
                }
            }
        }
    }
}

proof fn lemma_run_probes(fps: Seq<FingerprintModel>)
    ensures
        run_probes(fps).probes == fps.len(),
        fps.len() == 0 ==> run_probes(fps).last is None && run_probes(fps).same_count == 0,
        fps.len() > 0 ==> run_probes(fps).last == Some(fps.last()) && run_probes(fps).same_count
            == tail_run(fps),
        run_probes(fps).candidate == has_stable_window(fps),
        run_probes(fps).false_final == has_revision_after_window(fps),
    decreases fps.len(),
{
    if fps.len() > 0 {
        let p = fps.drop_last();
        let x = fps.last();
        let n = p.len() as int;
        lemma_run_probes(p);
        lemma_tail_run(p);
        lemma_tail_run(fps);
        assert(fps =~= p.push(x));
        // windows of fps are those of p plus one ending at the new probe
        if has_stable_window(p) {
            let i = choose|i: int| 0 <= i && i + 2 < p.len() && #[trigger] p[i] == p[i + 1] && p[i + 1] == p[i + 2];
            assert(fps[i] == p[i] && fps[i + 1] == p[i + 1] && fps[i + 2] == p[i + 2]);
        }
        if has_stable_window(fps) {
            let i = choose|i: int| 0 <= i && i + 2 < fps.len() && #[trigger] fps[i] == fps[i + 1] && fps[i + 1] == fps[i + 2];
            if i + 2 < n {
                assert(p[i] == fps[i] && p[i + 1] == fps[i + 1] && p[i + 2] == fps[i + 2]);
            }
        }
        if has_revision_after_window(p) {
            let (i, k) = choose|i: int, k: int|
                0 <= i && i + 2 < k < p.len() && #[trigger] p[i] == p[i + 1] && p[i + 1] == p[i
                    + 2] && #[trigger] p[k] != p[k - 1];
            assert(fps[i] == p[i] && fps[i + 1] == p[i + 1] && fps[i + 2] == p[i + 2]);
            assert(fps[k] == p[k] && fps[k - 1] == p[k - 1]);
        }
        if has_revision_after_window(fps) {
            let (i, k) = choose|i: int, k: int|
                0 <= i && i + 2 < k < fps.len() && #[trigger] fps[i] == fps[i + 1] && fps[i + 1]
                    == fps[i + 2] && #[trigger] fps[k] != fps[k - 1];
            assert(p[i] == fps[i] && p[i + 1] == fps[i + 1] && p[i + 2] == fps[i + 2]);
            if k < n {
                assert(p[k] == fps[k] && p[k - 1] == fps[k - 1]);
            }
        }
        if n > 0 {
            if x == p.last() {
                assert(tail_run(fps) == tail_run(p) + 1);
                if tail_run(p) >= 2 {
                    assert(p[n - 2] == p.last());
                    assert(fps[n - 2] == fps[n - 1] && fps[n - 1] == fps[n]);
                }
                if tail_run(p) >= 3 {
                    assert(p[n - 3] == p.last() && p[n - 2] == p.last());
                    assert(p[n - 3] == p[n - 2] && p[n - 2] == p[n - 1]);
                }
                if has_stable_window(fps) && !has_stable_window(p) {
                    let i = choose|i: int| 0 <= i && i + 2 < fps.len() && #[trigger] fps[i] == fps[i + 1] && fps[i + 1] == fps[i + 2];
                    assert(i + 2 == n);
                    assert(p[n - 2] == p[n - 1]);
                    lemma_tail_run(p.drop_last());
                    assert(tail_run(p) >= 2);
                }
            } else {
                assert(fps[n] != fps[n - 1]);
                if has_stable_window(p) {
                    let i = choose|i: int| 0 <= i && i + 2 < p.len() && #[trigger] p[i] == p[i + 1] && p[i + 1] == p[i + 2];
                    assert(fps[i] == fps[i + 1] && fps[i + 1] == fps[i + 2] && fps[n] != fps[n - 1]);
                }
                if has_stable_window(fps) {
                    let i = choose|i: int| 0 <= i && i + 2 < fps.len() && #[trigger] fps[i] == fps[i + 1] && fps[i + 1] == fps[i + 2];
                    assert(i + 2 != n);
                }
                if has_revision_after_window(fps) && !has_revision_after_window(p) {
                    let (i, k) = choose|i: int, k: int|
                        0 <= i && i + 2 < k < fps.len() && #[trigger] fps[i] == fps[i + 1] && fps[i
                            + 1] == fps[i + 2] && #[trigger] fps[k] != fps[k - 1];
                    assert(p[i] == p[i + 1] && p[i + 1] == p[i + 2]);
                }
            }
        }
    }
}

/// Starting from a fresh tracker, a run of probes reaches a candidate final exactly
/// when three consecutive probes carry identical fingerprints.
pub proof fn law_candidate_final_iff_three_identical(fps: Seq<FingerprintModel>)
    ensures
        run_probes(fps).candidate <==> has_stable_window(fps),
{
    lemma_run_probes(fps);
}

/// Starting from a fresh tracker, a run of probes is a false final exactly when a
/// fingerprint changes after three consecutive identical probes.
pub proof fn law_false_final_iff_revision_after_candidate(fps: Seq<FingerprintModel>)
    ensures
        run_probes(fps).false_final <==> has_revision_after_window(fps),
{
    lemma_run_probes(fps);
}

impl BarFinalityTracker {
    /// The probe-driven part of the tracker.
    pub open spec fn progress(&self) -> TrackerCore {
        TrackerCore {
            last: opt_model(self.last_fingerprint),
            same_count: self.same_count as nat,
            candidate: self.candidate_final_at is Some,
            false_final: self.false_final,
            revisions: self.revision_count as nat,
            probes: self.probe_count as nat,
        }
    }

    /// The tracker's invariant: a false final only follows a candidate final, the
    /// three candidate fields are set together, a seen bar has a run of at least one
    /// probe, and there are never more revisions than probes.
    pub open spec fn wf(&self) -> bool {
        &&& self.false_final ==> self.candidate_final_at is Some
        &&& (self.candidate_final_at is Some) == (self.candidate_delay_ms is Some)
        &&& (self.candidate_final_at is Some) == (self.candidate_fingerprint is Some)
        &&& (self.last_fingerprint is Some) == (self.probe_count > 0)
        &&& (self.first_seen_at is Some) == (self.probe_count > 0)
        &&& (self.first_seen_delay_ms is Some) == (self.probe_count > 0)
        &&& (self.final_fingerprint is Some) == (self.probe_count > 0)
        &&& self.last_fingerprint is Some ==> 1 <= self.same_count <= self.probe_count
        &&& self.last_fingerprint is None ==> self.same_count == 0
        &&& self.probe_count == 0 ==> self.revision_count == 0 && self.candidate_final_at is None
        &&& self.probe_count > 0 ==> self.revision_count < self.probe_count
        &&& self.candidate_final_at is Some ==> self.same_count >= stable_required()
            || self.revision_count > 0
    }

    /// A tracker for one bar, before any probe; `created_at` is the local time.
    pub fn new(symbol: &str, bar_ts: &str, session_type: SessionType) -> (t: Self)
        ensures
            t.wf(),
            t.progress() == initial_core(),
            t.symbol@ == symbol@,
            t.bar_ts@ == bar_ts@,
            t.session_type == session_type,
            t.first_seen_at is None,
            t.first_seen_delay_ms is None,
            t.candidate_final_at is None,
            t.candidate_delay_ms is None,
            t.candidate_fingerprint is None,
            t.last_revision_at is None,
            t.last_revision_delay_ms is None,
            t.final_fingerprint is None,
    {
        let now = local_now_millis_text();
        BarFinalityTracker {
            symbol: owned(symbol),
            bar_ts: owned(bar_ts),
            session_type,
            first_seen_at: None,
            first_seen_delay_ms: None,
            last_fingerprint: None,
            same_count: 0,
            candidate_final_at: None,
            candidate_delay_ms: None,
            candidate_fingerprint: None,
            revision_count: 0,
            last_revision_at: None,
            last_revision_delay_ms: None,
            false_final: false,
            final_fingerprint: None,
            probe_count: 0,
            created_at: now,
        }
    }

    /// Records one probe of the bar and reports what changed.
    #[verifier::rlimit(40)]
    pub fn record_probe(&mut self, now_str: &str, elapsed_ms: i64, fp: BarFingerprint) -> (res:
        ProbeResult)
        requires
            old(self).wf(),
            old(self).probe_count < usize::MAX,
        ensures
            final(self).wf(),
            final(self).progress() == probe_step(old(self).progress(), fp.model()),
            final(self).probe_count == old(self).probe_count + 1,
            final(self).symbol == old(self).symbol,
            final(self).bar_ts == old(self).bar_ts,
            final(self).session_type == old(self).session_type,
            final(self).created_at == old(self).created_at,
            // first sighting
            old(self).first_seen_at is None ==> opt_view(final(self).first_seen_at) == Some(
                now_str@,
            ) && final(self).first_seen_delay_ms == Some(elapsed_ms),
            old(self).first_seen_at is Some ==> final(self).first_seen_at == old(
                self,
            ).first_seen_at && final(self).first_seen_delay_ms == old(self).first_seen_delay_ms,
            // the report
            res.is_revision == (old(self).last_fingerprint matches Some(l) && l.model()
                != fp.model()),
            res.became_candidate_final == (old(self).candidate_final_at is None
                && final(self).candidate_final_at is Some),
            res.became_false_final == (!old(self).false_final && final(self).false_final),
            res.same_count == final(self).same_count,
            // a candidate final, once reached, keeps its time, delay and fingerprint
            old(self).candidate_final_at is Some ==> final(self).candidate_final_at == old(
                self,
            ).candidate_final_at && final(self).candidate_delay_ms == old(self).candidate_delay_ms
                && final(self).candidate_fingerprint == old(self).candidate_fingerprint,
            res.became_candidate_final ==> opt_view(final(self).candidate_final_at) == Some(
                now_str@,
            ) && final(self).candidate_delay_ms == Some(elapsed_ms) && opt_view(
                final(self).candidate_fingerprint,
            ) == Some(signature_text(fp.model())),
            // revisions
            res.is_revision ==> opt_view(final(self).last_revision_at) == Some(now_str@)
                && final(self).last_revision_delay_ms == Some(elapsed_ms),
            !res.is_revision ==> final(self).last_revision_at == old(self).last_revision_at
                && final(self).last_revision_delay_ms == old(self).last_revision_delay_ms,
            // a false final is never cleared
            old(self).false_final ==> final(self).false_final,
            opt_view(final(self).final_fingerprint) == Some(signature_text(fp.model())),
    {
        self.probe_count = self.probe_count + 1;
        if self.first_seen_at.is_none() {
            self.first_seen_at = Some(owned(now_str));
            self.first_seen_delay_ms = Some(elapsed_ms);
        }
        let mut is_revision = false;
        let mut became_candidate_final = false;
        let mut became_false_final = false;
        let sig = fp.signature();
        let same: bool = match &self.last_fingerprint {
            None => {
                false
            },
            Some(last) => last.same_as(&fp),
        };
        if self.last_fingerprint.is_none() {
            self.last_fingerprint = Some(fp);
            self.same_count = 1;
        } else if same {
            self.same_count = self.same_count + 1;
            if self.same_count == 3 && self.candidate_final_at.is_none() {
                self.candidate_final_at = Some(owned(now_str));
                self.candidate_delay_ms = Some(elapsed_ms);
                self.candidate_fingerprint = Some(sig.clone());
                became_candidate_final = true;
            }
        } else {
            is_revision = true;
            self.revision_count = self.revision_count + 1;
            self.last_revision_at = Some(owned(now_str));
            self.last_revision_delay_ms = Some(elapsed_ms);
            if self.candidate_final_at.is_some() && !self.false_final {
                self.false_final = true;
                became_false_final = true;
            }
            self.last_fingerprint = Some(fp);
            self.same_count = 1;
        }
        self.final_fingerprint = Some(sig);
        ProbeResult {
            is_revision,
            became_candidate_final,
            became_false_final,
            same_count: self.same_count,
        }
    }

    /// The persisted summary of the trial.
    pub fn to_trial(&self, completed: bool, updated_at: &str) -> (t: FinalityTrial)
        ensures
            t.id is None,
            t.symbol@ == self.symbol@,
            t.bar_ts@ == self.bar_ts@,
            t.session_type@ == session_name(self.session_type),
            opt_view(t.first_seen_at) == opt_view(self.first_seen_at),
            t.first_seen_delay_ms == self.first_seen_delay_ms,
            opt_view(t.candidate_final_at) == opt_view(self.candidate_final_at),
            t.candidate_delay_ms == self.candidate_delay_ms,
            t.revision_count == self.revision_count as i32,
            opt_view(t.last_revision_at) == opt_view(self.last_revision_at),
            t.last_revision_delay_ms == self.last_revision_delay_ms,
            t.false_final == self.false_final,
            opt_view(t.candidate_fingerprint) == opt_view(self.candidate_fingerprint),
            opt_view(t.final_fingerprint) == opt_view(self.final_fingerprint),
            t.probe_count == self.probe_count as i32,
            t.completed == completed,
            t.created_at@ == self.created_at@,
            t.updated_at@ == updated_at@,
    {
        FinalityTrial {
            id: None,
            symbol: self.symbol.clone(),
            bar_ts: self.bar_ts.clone(),
            session_type: owned(self.session_type.as_str()),
            first_seen_at: clone_opt(&self.first_seen_at),
            first_seen_delay_ms: self.first_seen_delay_ms,
            candidate_final_at: clone_opt(&self.candidate_final_at),
            candidate_delay_ms: self.candidate_delay_ms,
            revision_count: self.revision_count as i32,
            last_revision_at: clone_opt(&self.last_revision_at),
            last_revision_delay_ms: self.last_revision_delay_ms,
            false_final: self.false_final,
            candidate_fingerprint: clone_opt(&self.candidate_fingerprint),
            final_fingerprint: clone_opt(&self.final_fingerprint),
            probe_count: self.probe_count as i32,
            completed,
            created_at: self.created_at.clone(),
            updated_at: owned(updated_at),
        }
    }
}

} // verus!
