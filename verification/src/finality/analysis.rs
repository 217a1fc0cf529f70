//! Offline replay of recorded probes under alternative confirmation strategies, and
//! the sentinel-batch safety evaluation.
use vstd::prelude::*;

use crate::fetch::kline::{latest_kept, latest_rows};

use crate::text::{chars_of, owned, seq_eq, str_eq, views};
use crate::finality::model::FinalityTrial;

verus! {

/// A confirmation strategy to replay: a minimum settle time and the number of
/// consecutive identical probes required.
#[derive(Debug, Clone)]
pub struct StrategyDef {
    pub name: String,
    pub min_settle_secs: u32,
    pub consecutive_required: u32,
}

impl StrategyDef {
    pub fn new(name: &str, min_settle_secs: u32, consecutive_required: u32) -> (s: Self)
        ensures
            s.name@ == name@,
            s.min_settle_secs == min_settle_secs,
            s.consecutive_required == consecutive_required,
    {
        StrategyDef { name: owned(name), min_settle_secs, consecutive_required }
    }

    /// The preset strategies compared by the replay, in report order.
    pub fn default_strategies() -> (v: Vec<Self>)
        ensures
            v@.len() == 10,
            v@.map_values(|s: StrategyDef| (s.min_settle_secs, s.consecutive_required)) =~= seq![
                (0u32, 2u32),
                (0, 3),
                (0, 4),
                (5, 2),
                (5, 3),
                (10, 2),
                (10, 3),
                (15, 3),
                (30, 1),
                (30, 3),
            ],
            v@.map_values(|s: StrategyDef| s.name@) =~= seq![
                "2次一致 (min 0s)"@,
                "3次一致 (min 0s [当前影子试验])"@,
                "4次一致 (min 0s)"@,
                "min 5s + 2次一致"@,
                "min 5s + 3次一致"@,
                "min 10s + 2次一致"@,
                "min 10s + 3次一致"@,
                "min 15s + 3次一致"@,
                "min 30s + 1次探测 (当前生产基准)"@,
                "min 30s + 3次一致"@,
            ],
    {
        let v = vec![
            Self::new("2次一致 (min 0s)", 0, 2),
            Self::new("3次一致 (min 0s [当前影子试验])", 0, 3),
            Self::new("4次一致 (min 0s)", 0, 4),
            Self::new("min 5s + 2次一致", 5, 2),
            Self::new("min 5s + 3次一致", 5, 3),
            Self::new("min 10s + 2次一致", 10, 2),
            Self::new("min 10s + 3次一致", 10, 3),
            Self::new("min 15s + 3次一致", 15, 3),
            Self::new("min 30s + 1次探测 (当前生产基准)", 30, 1),
            Self::new("min 30s + 3次一致", 30, 3),
        ];
        v
    }
}

/// One recorded probe, as far as the replay reads it.
#[derive(Debug, Clone)]
pub struct ProbeObservation {
    pub symbol: String,
    pub bar_ts: String,
    pub elapsed_ms: i64,
    pub probe_index: i32,
    pub fingerprint: String,
}

/// Two probes concern the same bar of the same symbol.
pub open spec fn same_bar(a: ProbeObservation, b: ProbeObservation) -> bool {
    a.symbol@ == b.symbol@ && a.bar_ts@ == b.bar_ts@
}

/// Replay order within a bar: by probe index, ties kept in recording order.
pub open spec fn replay_before(obs: Seq<ProbeObservation>, i: int, j: int) -> bool {
    obs[i].probe_index < obs[j].probe_index || (obs[i].probe_index == obs[j].probe_index && i < j)
}

/// Position `i` holds the first probe recorded for its bar.
pub open spec fn opens_bar(obs: Seq<ProbeObservation>, i: int) -> bool {
    forall|j: int| 0 <= j < i ==> !same_bar(obs[j], obs[i])
}

/// The positions, among the first `n`, that open a bar, in recording order.
pub open spec fn bar_leaders(obs: Seq<ProbeObservation>, n: int) -> Seq<int>
    decreases n,
{
    if n <= 0 {
        Seq::empty()
    } else if opens_bar(obs, n - 1) {
        bar_leaders(obs, n - 1).push(n - 1)
    } else {
        bar_leaders(obs, n - 1)
    }
}

/// `g` lists, in replay order, exactly the probes of the bar that `leader` belongs to.
pub open spec fn is_bar_group(obs: Seq<ProbeObservation>, leader: int, g: Seq<int>) -> bool {
    &&& forall|a: int| 0 <= a < g.len() ==> 0 <= #[trigger] g[a] < obs.len() && same_bar(obs[g[a]], obs[leader])
    &&& forall|i: int| 0 <= i < obs.len() && same_bar(obs[i], obs[leader]) ==> #[trigger] g.contains(i)
    &&& forall|a: int, b: int| 0 <= a < b < g.len() ==> replay_before(obs, #[trigger] g[a], #[trigger] g[b])
}

/// The probes of the bar that `leader` belongs to, in replay order.
pub open spec fn bar_group(obs: Seq<ProbeObservation>, leader: int) -> Seq<int> {
    choose|g: Seq<int>| is_bar_group(obs, leader, g)
}

/// All bars, each as its probes in replay order, bars in order of first recording.
pub open spec fn bar_groups(obs: Seq<ProbeObservation>) -> Seq<Seq<int>> {
    bar_leaders(obs, obs.len() as int).map_values(|l: int| bar_group(obs, l))
}

proof fn lemma_sorted_unique(obs: Seq<ProbeObservation>, a: Seq<int>, b: Seq<int>)
    requires
        forall|x: int, y: int| 0 <= x < y < a.len() ==> replay_before(obs, #[trigger] a[x], #[trigger] a[y]),
        forall|x: int, y: int| 0 <= x < y < b.len() ==> replay_before(obs, #[trigger] b[x], #[trigger] b[y]),
        forall|v: int| a.contains(v) <==> b.contains(v),
    ensures
        a == b,
    decreases a.len(),
{
    if a.len() == 0 {
        if b.len() > 0 {
            assert(b.contains(b[0]));
        }
        assert(a =~= b);
    } else {
        assert(a.contains(a[0]));
        assert(b.len() > 0);
        assert(b.contains(b[0]));
        let ia = choose|k: int| 0 <= k < b.len() && b[k] == a[0];
        let ib = choose|k: int| 0 <= k < a.len() && a[k] == b[0];
        if ia > 0 {
            assert(replay_before(obs, b[0], b[ia]));
            if ib > 0 {
                assert(replay_before(obs, a[0], a[ib]));
            }
        }
        assert(a[0] == b[0]);
        let a2 = a.drop_first();
        let b2 = b.drop_first();
        assert forall|v: int| a2.contains(v) <==> b2.contains(v) by {
            if a2.contains(v) {
                let k = choose|k: int| 0 <= k < a2.len() && a2[k] == v;
                assert(a[k + 1] == v);
                assert(replay_before(obs, a[0], a[k + 1]));
                assert(a.contains(v));
                let m = choose|m: int| 0 <= m < b.len() && b[m] == v;
                if m == 0 {
                    assert(b[0] == a[0]);
                }
                assert(m > 0);
                assert(b2[m - 1] == v);
            }
            if b2.contains(v) {
                let k = choose|k: int| 0 <= k < b2.len() && b2[k] == v;
                assert(b[k + 1] == v);
                assert(replay_before(obs, b[0], b[k + 1]));
                assert(b.contains(v));
                let m = choose|m: int| 0 <= m < a.len() && a[m] == v;
                if m == 0 {
                    assert(a[0] == b[0]);
                }
                assert(m > 0);
                assert(a2[m - 1] == v);
            }
        }
        assert forall|x: int, y: int| 0 <= x < y < a2.len() implies replay_before(obs, #[trigger] a2[x], #[trigger] a2[y]) by {
            assert(a2[x] == a[x + 1] && a2[y] == a[y + 1]);
        }
        assert forall|x: int, y: int| 0 <= x < y < b2.len() implies replay_before(obs, #[trigger] b2[x], #[trigger] b2[y]) by {
            assert(b2[x] == b[x + 1] && b2[y] == b[y + 1]);
        }
        lemma_sorted_unique(obs, a2, b2);
        assert(a =~= seq![a[0]] + a2);
        assert(b =~= seq![b[0]] + b2);
    }
}

/// Whether two probes concern the same bar.
fn same_bar_exec(a: &ProbeObservation, b: &ProbeObservation) -> (r: bool)
    ensures
        r == same_bar(*a, *b),
{
    str_eq(a.symbol.as_str(), b.symbol.as_str()) && str_eq(a.bar_ts.as_str(), b.bar_ts.as_str())
}

/// The probes of the bar at `leader`, in replay order.
#[verifier::rlimit(40)]
fn collect_group(obs: &[ProbeObservation], leader: usize) -> (g: Vec<usize>)
    requires
        leader < obs@.len(),
    ensures
        is_bar_group(obs@, leader as int, g@.map_values(|i: usize| i as int)),
{
    let mut g: Vec<usize> = Vec::new();
    let mut i: usize = 0;
    while i < obs.len()
        invariant
            i <= obs@.len(),
            leader < obs@.len(),
            forall|a: int| 0 <= a < g@.len() ==> #[trigger] g@[a] < i && same_bar(obs@[g@[a] as int], obs@[leader as int]),
            forall|k: int| 0 <= k < i && same_bar(obs@[k], obs@[leader as int]) ==> exists|a: int| 0 <= a < g@.len() && g@[a] == k,
            forall|a: int, b: int| 0 <= a < b < g@.len() ==> replay_before(obs@, #[trigger] g@[a] as int, #[trigger] g@[b] as int),
        decreases obs@.len() - i,
    {
        if same_bar_exec(&obs[i], &obs[leader]) {
            // insert after every member that is not later in replay order
            let mut pos: usize = 0;
            while pos < g.len() && obs[g[pos]].probe_index <= obs[i].probe_index
                invariant
                    pos <= g@.len(),
                    forall|a: int| 0 <= a < g@.len() ==> #[trigger] g@[a] < i,
                    i < obs@.len(),
                    forall|a: int| 0 <= a < pos ==> obs@[#[trigger] g@[a] as int].probe_index <= obs@[i as int].probe_index,
                    forall|a: int, b: int| 0 <= a < b < g@.len() ==> replay_before(obs@, #[trigger] g@[a] as int, #[trigger] g@[b] as int),
                decreases g@.len() - pos,
            {
                pos += 1;
            }
            let ghost before = g@;
            proof {
                // every member after `pos` comes later in replay order than the new probe
                assert forall|b: int| pos <= b < before.len() implies obs@[i as int].probe_index < obs@[#[trigger] before[b] as int].probe_index by {
                    if b > pos {
                        assert(replay_before(obs@, before[pos as int] as int, before[b] as int));
                    }
                }
            }
            g.insert(pos, i);
            proof {
                assert forall|a: int, b: int| 0 <= a < b < g@.len() implies replay_before(obs@, #[trigger] g@[a] as int, #[trigger] g@[b] as int) by {
                    if a < pos && b < pos {
                        assert(g@[a] == before[a] && g@[b] == before[b]);
                    } else if a < pos && b == pos {
                    } else if a < pos {
                        assert(g@[a] == before[a] && g@[b] == before[b - 1]);
                    } else if a == pos {
                        assert(g@[b] == before[b - 1]);
                    } else {
                        assert(g@[a] == before[a - 1] && g@[b] == before[b - 1]);
                    }
                }
                assert forall|a: int| 0 <= a < g@.len() implies #[trigger] g@[a] < i + 1 && same_bar(obs@[g@[a] as int], obs@[leader as int]) by {
                    if a < pos {
                        assert(g@[a] == before[a]);
                    } else if a > pos {
                        assert(g@[a] == before[a - 1]);
                    }
                }
                assert forall|k: int| 0 <= k < i + 1 && same_bar(obs@[k], obs@[leader as int]) implies exists|a: int| 0 <= a < g@.len() && g@[a] == k by {
                    if k == i {
                        assert(g@[pos as int] == k);
                    } else {
                        let a = choose|a: int| 0 <= a < before.len() && before[a] == k;
                        if a < pos {
                            assert(g@[a] == k);
                        } else {
                            assert(g@[a + 1] == k);
                        }
                    }
                }
            }
        }
        i += 1;
    }
    proof {
        let gs = g@.map_values(|i: usize| i as int);
        assert forall|k: int| 0 <= k < obs@.len() && same_bar(obs@[k], obs@[leader as int]) implies #[trigger] gs.contains(k) by {
            let a = choose|a: int| 0 <= a < g@.len() && g@[a] == k;
            assert(gs[a] == k);
        }
        assert forall|a: int, b: int| 0 <= a < b < gs.len() implies replay_before(obs@, #[trigger] gs[a], #[trigger] gs[b]) by {
            assert(gs[a] == g@[a] as int && gs[b] == g@[b] as int);
        }
    }
    g
}

proof fn lemma_group_is_bar_group(obs: Seq<ProbeObservation>, leader: int, g: Seq<int>)
    requires
        0 <= leader < obs.len(),
        is_bar_group(obs, leader, g),
    ensures
        bar_group(obs, leader) == g,
{
    let c = bar_group(obs, leader);
    assert(is_bar_group(obs, leader, c));
    assert forall|v: int| g.contains(v) <==> c.contains(v) by {
        if g.contains(v) {
            let a = choose|a: int| 0 <= a < g.len() && g[a] == v;
            assert(0 <= g[a] < obs.len() && same_bar(obs[g[a]], obs[leader]));
        }
        if c.contains(v) {
            let a = choose|a: int| 0 <= a < c.len() && c[a] == v;
            assert(0 <= c[a] < obs.len() && same_bar(obs[c[a]], obs[leader]));
        }
    }
    lemma_sorted_unique(obs, g, c);
}

/// The probes of every bar, bars in order of first recording, each in replay order.
pub fn group_probes(obs: &[ProbeObservation]) -> (groups: Vec<Vec<usize>>)
    ensures
        groups@.len() == bar_groups(obs@).len(),
        forall|k: int| 0 <= k < groups@.len() ==> (#[trigger] groups@[k])@.map_values(|i: usize| i as int) == bar_groups(obs@)[k],
        forall|k: int, a: int| 0 <= k < groups@.len() && 0 <= a < groups@[k]@.len() ==> #[trigger] groups@[k]@[a] < obs@.len(),
{
    let mut groups: Vec<Vec<usize>> = Vec::new();
    let ghost mut leaders: Seq<int> = Seq::empty();
    let mut i: usize = 0;
    while i < obs.len()
        invariant
            i <= obs@.len(),
            leaders == bar_leaders(obs@, i as int),
            groups@.len() == leaders.len(),
            forall|k: int| 0 <= k < leaders.len() ==> 0 <= #[trigger] leaders[k] < i,
            forall|k: int| 0 <= k < groups@.len() ==> (#[trigger] groups@[k])@.map_values(|x: usize| x as int) == bar_group(obs@, leaders[k]),
            forall|k: int, a: int| 0 <= k < groups@.len() && 0 <= a < groups@[k]@.len() ==> #[trigger] groups@[k]@[a] < obs@.len(),
        decreases obs@.len() - i,
    {
        let mut first = true;
        let mut j: usize = 0;
        while j < i
            invariant
                j <= i < obs@.len(),
                first == forall|x: int| 0 <= x < j ==> !same_bar(obs@[x], obs@[i as int]),
            decreases i - j,
        {
            if same_bar_exec(&obs[j], &obs[i]) {
                first = false;
            }
            j += 1;
        }
        if first {
            let g = collect_group(obs, i);
            proof {
                lemma_group_is_bar_group(obs@, i as int, g@.map_values(|x: usize| x as int));
                leaders = leaders.push(i as int);
                assert forall|a: int| 0 <= a < g@.len() implies #[trigger] g@[a] < obs@.len() by {
                    assert(g@.map_values(|x: usize| x as int)[a] == g@[a] as int);
                }
            }
            groups.push(g);
        }
        i += 1;
    }
    proof {
        assert forall|k: int| 0 <= k < groups@.len() implies (#[trigger] groups@[k])@.map_values(|i: usize| i as int) == bar_groups(obs@)[k] by {
        }
    }
    groups
}

/// A probe taken `e` ms after the bar counts as settled for a minimum of `min_secs`
/// seconds (negative delays count as zero).
pub open spec fn settled(e: i64, min_secs: u32) -> bool {
    (if e < 0 {
        0
    } else {
        e as int
    }) >= 1000 * (min_secs as int)
}

/// The fingerprints of a bar's probes in replay order.
pub open spec fn group_fps(obs: Seq<ProbeObservation>, g: Seq<int>) -> Seq<Seq<char>> {
    g.map_values(|i: int| obs[i].fingerprint@)
}

/// The number of consecutive identical fingerprints ending at position `k`.
pub open spec fn run_len(fps: Seq<Seq<char>>, k: int) -> nat
    decreases k,
{
    if k <= 0 {
        1
    } else if fps[k] == fps[k - 1] {
        run_len(fps, k - 1) + 1
    } else {
        1
    }
}

/// The probe at replay position `k` would confirm the bar under `s`.
pub open spec fn qualifies(obs: Seq<ProbeObservation>, g: Seq<int>, k: int, s: StrategyDef) -> bool {
    settled(obs[g[k]].elapsed_ms, s.min_settle_secs) && run_len(group_fps(obs, g), k) >= s.consecutive_required
}

/// The replay position at which `s` confirms the bar: the first qualifying probe.
#[verifier::opaque]
pub open spec fn first_confirmation(obs: Seq<ProbeObservation>, g: Seq<int>, s: StrategyDef) -> Option<int> {
    if exists|k: int| 0 <= k < g.len() && qualifies(obs, g, k, s) {
        Some(choose|k: int| 0 <= k < g.len() && qualifies(obs, g, k, s) && forall|j: int| 0 <= j < k ==> !qualifies(obs, g, j, s))
    } else {
        None
    }
}

/// Some probe after replay position `k` differs from the probe at `k`.
#[verifier::opaque]
pub open spec fn revised_after(obs: Seq<ProbeObservation>, g: Seq<int>, k: int) -> bool {
    exists|j: int| k < j < g.len() && obs[g[j]].fingerprint@ != obs[g[k]].fingerprint@
}

/// The delay, in ms, of the probe at replay position `k` (negative delays count as 0).
pub open spec fn confirm_delay(obs: Seq<ProbeObservation>, g: Seq<int>, k: int) -> i64 {
    if obs[g[k]].elapsed_ms < 0 {
        0
    } else {
        obs[g[k]].elapsed_ms
    }
}

/// Bars that `s` confirms, among `gs`.
#[verifier::opaque]
pub open spec fn confirmed_bars(obs: Seq<ProbeObservation>, gs: Seq<Seq<int>>, s: StrategyDef) -> nat
    decreases gs.len(),
{
    if gs.len() == 0 {
        0
    } else {
        confirmed_bars(obs, gs.drop_last(), s) + if first_confirmation(obs, gs.last(), s) is Some {
            1nat
        } else {
            0nat
        }
    }
}

/// Bars that `s` confirms and that are revised after the confirmation, among `gs`.
#[verifier::opaque]
pub open spec fn false_finals(obs: Seq<ProbeObservation>, gs: Seq<Seq<int>>, s: StrategyDef) -> nat
    decreases gs.len(),
{
    if gs.len() == 0 {
        0
    } else {
        false_finals(obs, gs.drop_last(), s) + match first_confirmation(obs, gs.last(), s) {
            Some(k) => if revised_after(obs, gs.last(), k) {
                1nat
            } else {
                0nat
            },
            None => 0nat,
        }
    }
}

/// The confirmation delays of the bars that `s` confirms, in bar order.
#[verifier::opaque]
pub open spec fn confirm_delays(obs: Seq<ProbeObservation>, gs: Seq<Seq<int>>, s: StrategyDef) -> Seq<i64>
    decreases gs.len(),
{
    if gs.len() == 0 {
        Seq::empty()
    } else {
        confirm_delays(obs, gs.drop_last(), s) + match first_confirmation(obs, gs.last(), s) {
            Some(k) => seq![confirm_delay(obs, gs.last(), k)],
            None => Seq::empty(),
        }
    }
}

/// Replays one bar's probes under `s`: the replay position of the confirmation, and
/// whether a later probe revised the confirmed fingerprint.
#[verifier::rlimit(40)]
pub fn replay_bar(obs: &[ProbeObservation], g: &[usize], s: &StrategyDef) -> (r: (Option<usize>, bool))
    requires
        forall|a: int| 0 <= a < g@.len() ==> #[trigger] g@[a] < obs@.len(),
    ensures
        ({
            let gi = g@.map_values(|i: usize| i as int);
            &&& r.0 matches Some(k) ==> first_confirmation(obs@, gi, *s) == Some(k as int) && r.1 == revised_after(obs@, gi, k as int)
            &&& r.0 is None ==> first_confirmation(obs@, gi, *s) is None && !r.1
            &&& r.0 matches Some(k) ==> k < g@.len()
        }),
{
    reveal(first_confirmation);
    reveal(revised_after);
    let ghost gi = g@.map_values(|i: usize| i as int);
    let ghost fps = group_fps(obs@, gi);
    let mut same_count: usize = 0;
    let mut found: Option<usize> = None;
    let mut idx: usize = 0;
    while idx < g.len()
        invariant
            gi == g@.map_values(|i: usize| i as int),
            fps == group_fps(obs@, gi),
            forall|a: int| 0 <= a < g@.len() ==> #[trigger] g@[a] < obs@.len(),
            idx <= g@.len(),
            idx > 0 ==> same_count == run_len(fps, idx - 1) && same_count <= idx,
            found matches Some(k) ==> k < idx && first_confirmation(obs@, gi, *s) == Some(k as int),
            found is None ==> forall|j: int| 0 <= j < idx ==> !qualifies(obs@, gi, j, *s),
        decreases g@.len() - idx,
    {
        let cur = &obs[g[idx]];
        if idx == 0 {
            same_count = 1;
        } else {
            let prev = &obs[g[idx - 1]];
            if str_eq(prev.fingerprint.as_str(), cur.fingerprint.as_str()) {
                same_count = same_count + 1;
            } else {
                same_count = 1;
            }
        }
        assert(fps[idx as int] == cur.fingerprint@);
        if idx > 0 {
            assert(fps[idx - 1] == obs@[g@[idx - 1] as int].fingerprint@);
        }
        assert(same_count == run_len(fps, idx as int));
        if found.is_none() {
            let e = cur.elapsed_ms;
            let settled_now = if e < 0 {
                s.min_settle_secs == 0
            } else {
                e as i128 >= 1000 * (s.min_settle_secs as i128)
            };
            if settled_now && same_count as u64 >= s.consecutive_required as u64 {
                proof {
                    reveal(first_confirmation);
                    assert(gi[idx as int] == g@[idx as int] as int);
                    assert(qualifies(obs@, gi, idx as int, *s));
                    let w = choose|w: int| 0 <= w < gi.len() && qualifies(obs@, gi, w, *s) && forall|j: int| 0 <= j < w ==> !qualifies(obs@, gi, j, *s);
                    assert(w == idx as int) by {
                        if w > idx {
                            assert(qualifies(obs@, gi, idx as int, *s));
                        }
                    }
                }
                found = Some(idx);
            } else {
                assert(gi[idx as int] == g@[idx as int] as int);
                assert(!qualifies(obs@, gi, idx as int, *s));
            }
        }
        idx += 1;
    }
    match found {
        None => (None, false),
        Some(k) => {
            let mut late = false;
            let mut j: usize = k + 1;
            while j < g.len()
                invariant
                    gi == g@.map_values(|i: usize| i as int),
                    forall|a: int| 0 <= a < g@.len() ==> #[trigger] g@[a] < obs@.len(),
                    k < g@.len(),
                    k + 1 <= j <= g@.len(),
                    late == exists|x: int| k < x < j && obs@[gi[x]].fingerprint@ != obs@[gi[k as int]].fingerprint@,
                decreases g@.len() - j,
            {
                if !str_eq(obs[g[j]].fingerprint.as_str(), obs[g[k]].fingerprint.as_str()) {
                    late = true;
                }
                proof {
                    assert(gi[j as int] == g@[j as int] as int);
                    assert(gi[k as int] == g@[k as int] as int);
                    if !late {
                        assert forall|x: int| k < x < j + 1 implies !(obs@[gi[x]].fingerprint@ != obs@[gi[k as int]].fingerprint@) by {
                            if x < j {
                            }
                        }
                    }
                }
                j += 1;
            }
            (Some(k), late)
        },
    }
}

proof fn lemma_tally_empty(obs: Seq<ProbeObservation>, gs: Seq<Seq<int>>, s: StrategyDef)
    ensures
        confirmed_bars(obs, gs.subrange(0, 0), s) == 0,
        false_finals(obs, gs.subrange(0, 0), s) == 0,
        confirm_delays(obs, gs.subrange(0, 0), s) == Seq::<i64>::empty(),
{
    reveal(confirmed_bars);
    reveal(false_finals);
    reveal(confirm_delays);
}

proof fn lemma_tally_step(obs: Seq<ProbeObservation>, gs: Seq<Seq<int>>, k: int, s: StrategyDef)
    requires
        0 <= k < gs.len(),
    ensures
        confirmed_bars(obs, gs.subrange(0, k + 1), s) == confirmed_bars(obs, gs.subrange(0, k), s)
            + if first_confirmation(obs, gs[k], s) is Some {
            1nat
        } else {
            0nat
        },
        false_finals(obs, gs.subrange(0, k + 1), s) == false_finals(obs, gs.subrange(0, k), s)
            + match first_confirmation(obs, gs[k], s) {
            Some(c) => if revised_after(obs, gs[k], c) {
                1nat
            } else {
                0nat
            },
            None => 0nat,
        },
        confirm_delays(obs, gs.subrange(0, k + 1), s) == confirm_delays(obs, gs.subrange(0, k), s)
            + match first_confirmation(obs, gs[k], s) {
            Some(c) => seq![confirm_delay(obs, gs[k], c)],
            None => Seq::empty(),
        },
{
    let sub = gs.subrange(0, k + 1);
    assert(sub.drop_last() =~= gs.subrange(0, k));
    assert(sub.last() == gs[k]);
    reveal(confirmed_bars);
    reveal(false_finals);
    reveal(confirm_delays);
}

/// What one strategy does to the recorded bars.
#[derive(Debug, Clone)]
pub struct StrategyTally {
    pub strategy_name: String,
    pub min_settle_secs: u32,
    pub consecutive_required: u32,
    pub total_bars: usize,
    pub confirmed_bars: usize,
    pub unconfirmed_bars: usize,
    pub false_final_count: usize,
    /// Delay of each confirmation in ms, negative delays read as zero.
    pub confirm_delays_ms: Vec<i64>,
}

/// The tally of one strategy over the bars `groups` (each in replay order).
#[verifier::rlimit(40)]
fn tally_strategy(observations: &[ProbeObservation], groups: &Vec<Vec<usize>>, s: &StrategyDef) -> (t: StrategyTally)
    requires
        forall|q: int| 0 <= q < groups@.len() ==> (#[trigger] groups@[q])@.map_values(|i: usize| i as int) == bar_groups(observations@)[q],
        forall|q: int, a: int| 0 <= q < groups@.len() && 0 <= a < groups@[q]@.len() ==> #[trigger] groups@[q]@[a] < observations@.len(),
        groups@.len() == bar_groups(observations@).len(),
    ensures
        ({
            let gs = bar_groups(observations@);
            &&& t.strategy_name@ == s.name@
            &&& t.min_settle_secs == s.min_settle_secs
            &&& t.consecutive_required == s.consecutive_required
            &&& t.total_bars == gs.len()
            &&& t.confirmed_bars == confirmed_bars(observations@, gs, *s)
            &&& t.unconfirmed_bars == gs.len() - confirmed_bars(observations@, gs, *s)
            &&& t.false_final_count == false_finals(observations@, gs, *s)
            &&& t.confirm_delays_ms@ == confirm_delays(observations@, gs, *s)
        }),
{
    let ghost gs = bar_groups(observations@);
    let mut confirmed: usize = 0;
    let mut falses: usize = 0;
    let mut delays: Vec<i64> = Vec::new();
    let mut k: usize = 0;
    proof {
        lemma_tally_empty(observations@, gs, *s);
    }
    while k < groups.len()
        invariant
            k <= groups@.len(),
            gs == bar_groups(observations@),
            groups@.len() == gs.len(),
            forall|q: int| 0 <= q < groups@.len() ==> (#[trigger] groups@[q])@.map_values(|i: usize| i as int) == gs[q],
            forall|q: int, a: int| 0 <= q < groups@.len() && 0 <= a < groups@[q]@.len() ==> #[trigger] groups@[q]@[a] < observations@.len(),
            confirmed == confirmed_bars(observations@, gs.subrange(0, k as int), *s),
            falses == false_finals(observations@, gs.subrange(0, k as int), *s),
            delays@ == confirm_delays(observations@, gs.subrange(0, k as int), *s),
            confirmed <= k,
            falses <= k,
        decreases groups@.len() - k,
    {
        let g = &groups[k];
        assert(forall|a: int| 0 <= a < g@.len() ==> #[trigger] g@[a] < observations@.len());
        let (conf, late) = replay_bar(observations, g.as_slice(), s);
        proof {
            lemma_tally_step(observations@, gs, k as int, *s);
            assert(g@.map_values(|i: usize| i as int) == gs[k as int]);
        }
        match conf {
            Some(c) => {
                confirmed = confirmed + 1;
                if late {
                    falses = falses + 1;
                }
                let e = observations[g[c]].elapsed_ms;
                let d: i64 = if e < 0 {
                    0
                } else {
                    e
                };
                proof {
                    assert(gs[k as int][c as int] == g@[c as int] as int);
                    assert(d == confirm_delay(observations@, gs[k as int], c as int));
                }
                delays.push(d);
            },
            None => {},
        }
        k += 1;
    }
    proof {
        assert(gs.subrange(0, groups@.len() as int) =~= gs);
    }
    StrategyTally {
        strategy_name: s.name.clone(),
        min_settle_secs: s.min_settle_secs,
        consecutive_required: s.consecutive_required,
        total_bars: groups.len(),
        confirmed_bars: confirmed,
        unconfirmed_bars: groups.len() - confirmed,
        false_final_count: falses,
        confirm_delays_ms: delays,
    }
}

/// Replays every recorded bar under every strategy. Probes are grouped by
/// (symbol, bar timestamp) and replayed in probe-index order; a bar is confirmed at
/// the first probe that is settled for the strategy's minimum and ends a run of at
/// least the required number of identical fingerprints, and is a false final when a
/// later probe carries another fingerprint.
#[verifier::rlimit(60)]
#[verifier::spinoff_prover]
pub fn simulate_strategies(observations: &[ProbeObservation], strategies: &[StrategyDef]) -> (out: Vec<StrategyTally>)
    ensures
        out@.len() == strategies@.len(),
        forall|x: int| 0 <= x < out@.len() ==> {
            let t = #[trigger] out@[x];
            let s = strategies@[x];
            let gs = bar_groups(observations@);
            &&& t.strategy_name@ == s.name@
            &&& t.min_settle_secs == s.min_settle_secs
            &&& t.consecutive_required == s.consecutive_required
            &&& t.total_bars == gs.len()
            &&& t.confirmed_bars == confirmed_bars(observations@, gs, s)
            &&& t.unconfirmed_bars == gs.len() - confirmed_bars(observations@, gs, s)
            &&& t.false_final_count == false_finals(observations@, gs, s)
            &&& t.confirm_delays_ms@ == confirm_delays(observations@, gs, s)
        },
{
    let groups = group_probes(observations);
    let ghost gs = bar_groups(observations@);
    let mut out: Vec<StrategyTally> = Vec::new();
    let mut x: usize = 0;
    while x < strategies.len()
        invariant
            x <= strategies@.len(),
            gs == bar_groups(observations@),
            groups@.len() == gs.len(),
            forall|k: int| 0 <= k < groups@.len() ==> (#[trigger] groups@[k])@.map_values(|i: usize| i as int) == gs[k],
            forall|k: int, a: int| 0 <= k < groups@.len() && 0 <= a < groups@[k]@.len() ==> #[trigger] groups@[k]@[a] < observations@.len(),
            out@.len() == x,
            forall|y: int| 0 <= y < x ==> {
                let t = #[trigger] out@[y];
                let s = strategies@[y];
                &&& t.strategy_name@ == s.name@
                &&& t.min_settle_secs == s.min_settle_secs
                &&& t.consecutive_required == s.consecutive_required
                &&& t.total_bars == gs.len()
                &&& t.confirmed_bars == confirmed_bars(observations@, gs, s)
                &&& t.unconfirmed_bars == gs.len() - confirmed_bars(observations@, gs, s)
                &&& t.false_final_count == false_finals(observations@, gs, s)
                &&& t.confirm_delays_ms@ == confirm_delays(observations@, gs, s)
            },
        decreases strategies@.len() - x,
    {
        let s = &strategies[x];
        let t = tally_strategy(observations, &groups, s);
        out.push(t);
        x += 1;
    }
    out
}

/// Among any bars, a strategy reports no more false finals than confirmations, and
/// no more confirmations than bars.
pub proof fn law_false_finals_within_confirmed(obs: Seq<ProbeObservation>, gs: Seq<Seq<int>>, s: StrategyDef)
    ensures
        false_finals(obs, gs, s) <= confirmed_bars(obs, gs, s),
        confirmed_bars(obs, gs, s) <= gs.len(),
    decreases gs.len(),
{
    reveal(confirmed_bars);
    reveal(false_finals);
    if gs.len() > 0 {
        law_false_finals_within_confirmed(obs, gs.drop_last(), s);
    }
}

/// The bar a probe concerns: its (symbol, bar timestamp).
pub open spec fn bar_key(o: ProbeObservation) -> (Seq<char>, Seq<char>) {
    (o.symbol@, o.bar_ts@)
}

/// The distinct bars among the first `n` probes.
pub open spec fn bar_keys(obs: Seq<ProbeObservation>, n: int) -> Set<(Seq<char>, Seq<char>)> {
    Set::new(|k: (Seq<char>, Seq<char>)| exists|i: int| 0 <= i < n && #[trigger] bar_key(obs[i]) == k)
}

proof fn lemma_leaders_count_keys(obs: Seq<ProbeObservation>, n: int)
    requires
        0 <= n <= obs.len(),
    ensures
        bar_keys(obs, n).finite(),
        bar_keys(obs, n).len() == bar_leaders(obs, n).len(),
    decreases n,
{
    if n == 0 {
        assert(bar_keys(obs, 0) =~= Set::empty());
    } else {
        lemma_leaders_count_keys(obs, n - 1);
        let prev = bar_keys(obs, n - 1);
        let k = bar_key(obs[n - 1]);
        assert(bar_keys(obs, n) =~= prev.insert(k)) by {
            assert forall|x: (Seq<char>, Seq<char>)| bar_keys(obs, n).contains(x) implies #[trigger] prev.insert(k).contains(x) by {
                let i = choose|i: int| 0 <= i < n && #[trigger] bar_key(obs[i]) == x;
                if i < n - 1 {
                    assert(prev.contains(x));
                }
            }
            assert forall|x: (Seq<char>, Seq<char>)| #[trigger] prev.insert(k).contains(x) implies bar_keys(obs, n).contains(x) by {
                if x == k {
                    assert(bar_key(obs[n - 1]) == x);
                } else {
                    let i = choose|i: int| 0 <= i < n - 1 && #[trigger] bar_key(obs[i]) == x;
                    assert(bar_key(obs[i]) == x);
                }
            }
        }
        if opens_bar(obs, n - 1) {
            if prev.contains(k) {
                let i = choose|i: int| 0 <= i < n - 1 && #[trigger] bar_key(obs[i]) == k;
                assert(same_bar(obs[i], obs[n - 1]));
            }
        } else {
            let j = choose|j: int| 0 <= j < n - 1 && same_bar(#[trigger] obs[j], obs[n - 1]);
            assert(bar_key(obs[j]) == k);
            assert(prev.contains(k));
            assert(prev.insert(k) =~= prev);
        }
    }
}

/// The simulation counts one bar per distinct (symbol, bar timestamp) among the
/// probes.
pub proof fn law_bars_are_distinct_symbol_times(obs: Seq<ProbeObservation>)
    ensures
        bar_keys(obs, obs.len() as int).finite(),
        bar_groups(obs).len() == bar_keys(obs, obs.len() as int).len(),
{
    lemma_leaders_count_keys(obs, obs.len() as int);
}

/// A qualifying probe under a strategy qualifies under any strategy that asks for
/// no longer a wait and no longer a run, so such a strategy confirms the bar too.
proof fn lemma_looser_confirms(obs: Seq<ProbeObservation>, g: Seq<int>, a: StrategyDef, b: StrategyDef)
    requires
        a.min_settle_secs <= b.min_settle_secs,
        a.consecutive_required <= b.consecutive_required,
    ensures
        first_confirmation(obs, g, b) is Some ==> first_confirmation(obs, g, a) is Some,
{
    reveal(first_confirmation);
    if exists|k: int| 0 <= k < g.len() && qualifies(obs, g, k, b) {
        let k = choose|k: int| 0 <= k < g.len() && qualifies(obs, g, k, b);
        assert(qualifies(obs, g, k, a));
    }
}

/// A strategy that waits at least as long and asks for at least as long a run of
/// identical probes confirms no more bars.
pub proof fn law_stricter_strategy_confirms_no_more(
    obs: Seq<ProbeObservation>,
    gs: Seq<Seq<int>>,
    a: StrategyDef,
    b: StrategyDef,
)
    requires
        a.min_settle_secs <= b.min_settle_secs,
        a.consecutive_required <= b.consecutive_required,
    ensures
        confirmed_bars(obs, gs, b) <= confirmed_bars(obs, gs, a),
    decreases gs.len(),
{
    reveal(confirmed_bars);
    if gs.len() > 0 {
        law_stricter_strategy_confirms_no_more(obs, gs.drop_last(), a, b);
        lemma_looser_confirms(obs, gs.last(), a, b);
    }
}

// ---------------------------------------------------------------------------
// Sentinel batches
// ---------------------------------------------------------------------------

/// Position `i` holds the first trial of its bar timestamp.
pub open spec fn opens_batch(trials: Seq<FinalityTrial>, i: int) -> bool {
    forall|j: int| 0 <= j < i ==> trials[j].bar_ts@ != trials[i].bar_ts@
}

/// The positions, among the first `n`, that open a batch (one per bar timestamp).
pub open spec fn batch_leaders(trials: Seq<FinalityTrial>, n: int) -> Seq<int>
    decreases n,
{
    if n <= 0 {
        Seq::empty()
    } else if opens_batch(trials, n - 1) {
        batch_leaders(trials, n - 1).push(n - 1)
    } else {
        batch_leaders(trials, n - 1)
    }
}

/// The trial recorded last for `symbol` at bar timestamp `ts`.
pub open spec fn latest_trial(trials: Seq<FinalityTrial>, ts: Seq<char>, symbol: Seq<char>) -> Option<int> {
    if exists|i: int| 0 <= i < trials.len() && trials[i].bar_ts@ == ts && trials[i].symbol@ == symbol {
        Some(choose|i: int| 0 <= i < trials.len() && trials[i].bar_ts@ == ts && trials[i].symbol@ == symbol
            && forall|j: int| i < j < trials.len() ==> !(trials[j].bar_ts@ == ts && trials[j].symbol@ == symbol))
    } else {
        None
    }
}

/// The moment (ms after the bar) at which the first `k` sentinels have all reached a
/// candidate final at `ts`: the latest of their candidate delays, never below zero;
/// `None` when one of them has no trial or no candidate final.
pub open spec fn sentinel_final(trials: Seq<FinalityTrial>, ts: Seq<char>, sentinels: Seq<String>, k: int) -> Option<i64>
    decreases k,
{
    if k <= 0 {
        Some(0)
    } else {
        match sentinel_final(trials, ts, sentinels, k - 1) {
            None => None,
            Some(m) => match latest_trial(trials, ts, sentinels[k - 1]@) {
                Some(i) => match trials[i].candidate_delay_ms {
                    Some(d) => Some(if d > m {
                        d
                    } else {
                        m
                    }),
                    None => None,
                },
                None => None,
            },
        }
    }
}

/// A symbol is one of the sentinels.
pub open spec fn is_sentinel(sentinels: Seq<String>, symbol: Seq<char>) -> bool {
    exists|q: int| 0 <= q < sentinels.len() && sentinels[q]@ == symbol
}

/// Some non-sentinel trial at `ts` was last revised after `f` ms.
pub open spec fn late_non_sentinel(trials: Seq<FinalityTrial>, ts: Seq<char>, sentinels: Seq<String>, f: i64) -> bool {
    exists|i: int| 0 <= i < trials.len() && trials[i].bar_ts@ == ts && !is_sentinel(sentinels, trials[i].symbol@)
        && (trials[i].last_revision_delay_ms matches Some(r) && r > f)
}

/// The batch at trial position `l`, read against the sentinels: its sentinel final
/// time, if every sentinel reached a candidate final.
pub open spec fn batch_final(trials: Seq<FinalityTrial>, l: int, sentinels: Seq<String>) -> Option<i64> {
    sentinel_final(trials, trials[l].bar_ts@, sentinels, sentinels.len() as int)
}

/// Counts of batches whose sentinels all confirmed, and of those with a later
/// non-sentinel revision, over `ls`; and the sentinel final times of the former.
#[verifier::opaque]
pub open spec fn batch_tally(trials: Seq<FinalityTrial>, ls: Seq<int>, sentinels: Seq<String>) -> (nat, nat, Seq<i64>)
    decreases ls.len(),
{
    if ls.len() == 0 {
        (0, 0, Seq::empty())
    } else {
        let (v, late, ds) = batch_tally(trials, ls.drop_last(), sentinels);
        match batch_final(trials, ls.last(), sentinels) {
            Some(f) => (v + 1, late + if late_non_sentinel(trials, trials[ls.last()].bar_ts@, sentinels, f) {
                1nat
            } else {
                0nat
            }, ds.push(f)),
            None => (v, late, ds),
        }
    }
}

/// The sentinel-batch evaluation, without its rates.
#[derive(Debug, Clone)]
pub struct SentinelTally {
    pub sentinel_symbols: Vec<String>,
    pub total_batches: usize,
    pub valid_batches: usize,
    pub batches_with_non_sentinel_late_revision: usize,
    /// The sentinel final time (ms) of each valid batch.
    pub sentinel_final_ms: Vec<i64>,
}

fn latest_trial_exec(trials: &[FinalityTrial], ts: &String, symbol: &String) -> (r: Option<usize>)
    ensures
        r matches Some(i) ==> latest_trial(trials@, ts@, symbol@) == Some(i as int) && i < trials@.len(),
        r is None ==> latest_trial(trials@, ts@, symbol@) is None,
{
    let mut found: Option<usize> = None;
    let mut i: usize = 0;
    while i < trials.len()
        invariant
            i <= trials@.len(),
            found matches Some(f) ==> f < i && trials@[f as int].bar_ts@ == ts@ && trials@[f as int].symbol@ == symbol@
                && forall|j: int| f < j < i ==> !(trials@[j].bar_ts@ == ts@ && trials@[j].symbol@ == symbol@),
            found is None ==> forall|j: int| 0 <= j < i ==> !(trials@[j].bar_ts@ == ts@ && trials@[j].symbol@ == symbol@),
        decreases trials@.len() - i,
    {
        if str_eq(trials[i].bar_ts.as_str(), ts.as_str()) && str_eq(trials[i].symbol.as_str(), symbol.as_str()) {
            found = Some(i);
        }
        i += 1;
    }
    proof {
        if let Some(f) = found {
            let w = choose|w: int| 0 <= w < trials@.len() && trials@[w].bar_ts@ == ts@ && trials@[w].symbol@ == symbol@
                && forall|j: int| w < j < trials@.len() ==> !(trials@[j].bar_ts@ == ts@ && trials@[j].symbol@ == symbol@);
            assert(w == f as int) by {
                if w < f {
                } else if w > f {
                }
            }
        }
    }
    found
}

fn sentinel_final_exec(trials: &[FinalityTrial], ts: &String, sentinels: &[String]) -> (r: Option<i64>)
    ensures
        r == sentinel_final(trials@, ts@, sentinels@, sentinels@.len() as int),
{
    let mut acc: Option<i64> = Some(0);
    let mut k: usize = 0;
    while k < sentinels.len()
        invariant
            k <= sentinels@.len(),
            acc == sentinel_final(trials@, ts@, sentinels@, k as int),
        decreases sentinels@.len() - k,
    {
        match acc {
            None => {},
            Some(m) => {
                acc = match latest_trial_exec(trials, ts, &sentinels[k]) {
                    Some(i) => match trials[i].candidate_delay_ms {
                        Some(d) => Some(if d > m {
                            d
                        } else {
                            m
                        }),
                        None => None,
                    },
                    None => None,
                };
            },
        }
        k += 1;
    }
    acc
}

fn is_sentinel_exec(sentinels: &[String], symbol: &String) -> (r: bool)
    ensures
        r == is_sentinel(sentinels@, symbol@),
{
    let mut q: usize = 0;
    while q < sentinels.len()
        invariant
            q <= sentinels@.len(),
            forall|x: int| 0 <= x < q ==> sentinels@[x]@ != symbol@,
        decreases sentinels@.len() - q,
    {
        if str_eq(sentinels[q].as_str(), symbol.as_str()) {
            return true;
        }
        q += 1;
    }
    false
}

fn late_non_sentinel_exec(trials: &[FinalityTrial], ts: &String, sentinels: &[String], f: i64) -> (r: bool)
    ensures
        r == late_non_sentinel(trials@, ts@, sentinels@, f),
{
    let mut i: usize = 0;
    while i < trials.len()
        invariant
            i <= trials@.len(),
            forall|j: int| 0 <= j < i ==> !(trials@[j].bar_ts@ == ts@ && !is_sentinel(sentinels@, trials@[j].symbol@)
                && (trials@[j].last_revision_delay_ms matches Some(r) && r > f)),
        decreases trials@.len() - i,
    {
        let t = &trials[i];
        if str_eq(t.bar_ts.as_str(), ts.as_str()) && !is_sentinel_exec(sentinels, &t.symbol) {
            match t.last_revision_delay_ms {
                Some(r) => {
                    if r > f {
                        return true;
                    }
                },
                None => {},
            }
        }
        i += 1;
    }
    false
}

/// Evaluates sentinel batches: for each bar timestamp, the moment all sentinels have
/// reached a candidate final (the latest of their candidate delays), and whether any
/// other symbol was revised after that moment. Batches whose sentinels did not all
/// confirm are not valid and are skipped.
#[verifier::rlimit(40)]
pub fn evaluate_sentinels(trials: &[FinalityTrial], sentinel_symbols: &[String]) -> (out: SentinelTally)
    ensures
        ({
            let ls = batch_leaders(trials@, trials@.len() as int);
            let (v, late, ds) = batch_tally(trials@, ls, sentinel_symbols@);
            &&& out.sentinel_symbols@.len() == sentinel_symbols@.len()
            &&& forall|q: int| 0 <= q < sentinel_symbols@.len() ==> #[trigger] out.sentinel_symbols@[q]@ == sentinel_symbols@[q]@
            &&& out.total_batches == ls.len()
            &&& out.valid_batches == v
            &&& out.batches_with_non_sentinel_late_revision == late
            &&& out.sentinel_final_ms@ == ds
        }),
{
    let mut total: usize = 0;
    let mut valid: usize = 0;
    let mut late: usize = 0;
    let mut finals: Vec<i64> = Vec::new();
    let ghost mut ls: Seq<int> = Seq::empty();
    let mut i: usize = 0;
    proof {
        reveal(batch_tally);
    }
    while i < trials.len()
        invariant
            i <= trials@.len(),
            ls == batch_leaders(trials@, i as int),
            forall|k: int| 0 <= k < ls.len() ==> 0 <= #[trigger] ls[k] < i,
            total == ls.len(),
            (valid as nat, late as nat, finals@) == batch_tally(trials@, ls, sentinel_symbols@),
            late <= valid <= total <= i,
        decreases trials@.len() - i,
    {
        let mut first = true;
        let mut j: usize = 0;
        while j < i
            invariant
                j <= i < trials@.len(),
                first == forall|x: int| 0 <= x < j ==> trials@[x].bar_ts@ != trials@[i as int].bar_ts@,
            decreases i - j,
        {
            if str_eq(trials[j].bar_ts.as_str(), trials[i].bar_ts.as_str()) {
                first = false;
            }
            j += 1;
        }
        if first {
            let ts = &trials[i].bar_ts;
            let bf = sentinel_final_exec(trials, ts, sentinel_symbols);
            let ghost old_ls = ls;
            proof {
                ls = ls.push(i as int);
                reveal(batch_tally);
                assert(ls.drop_last() =~= old_ls);
            }
            total = total + 1;
            match bf {
                Some(f) => {
                    valid = valid + 1;
                    if late_non_sentinel_exec(trials, ts, sentinel_symbols, f) {
                        late = late + 1;
                    }
                    finals.push(f);
                },
                None => {},
            }
        }
        i += 1;
    }
    let mut names: Vec<String> = Vec::new();
    let mut q: usize = 0;
    while q < sentinel_symbols.len()
        invariant
            q <= sentinel_symbols@.len(),
            names@.len() == q,
            forall|x: int| 0 <= x < q ==> #[trigger] names@[x]@ == sentinel_symbols@[x]@,
        decreases sentinel_symbols@.len() - q,
    {
        names.push(sentinel_symbols[q].clone());
        q += 1;
    }
    SentinelTally {
        sentinel_symbols: names,
        total_batches: total,
        valid_batches: valid,
        batches_with_non_sentinel_late_revision: late,
        sentinel_final_ms: finals,
    }
}

/// The positions among the first `m` whose key is `key`, in order.
pub open spec fn positions_of(ts: Seq<Seq<char>>, key: Seq<char>, m: int) -> Seq<int>
    decreases m,
{
    if m <= 0 {
        Seq::empty()
    } else if ts[m - 1] == key {
        positions_of(ts, key, m - 1).push(m - 1)
    } else {
        positions_of(ts, key, m - 1)
    }
}

/// Groups positions by their key: one group per distinct key, in increasing key order
/// (the text order of `String`), each listing every position with that key in order.
#[verifier::rlimit(40)]
pub fn group_by_text(keys: &[String]) -> (r: Vec<Vec<usize>>)
    ensures
        forall|k: int| 0 <= k < r@.len() ==> (#[trigger] r@[k])@.len() > 0,
        latest_kept(views(keys@), keys@.len() as nat, r@.map_values(|g: Vec<usize>| g@[0] as int)),
        forall|k: int| 0 <= k < r@.len() ==> (#[trigger] r@[k])@.map_values(|x: usize| x as int)
            == positions_of(views(keys@), views(keys@)[r@[k]@[0] as int], keys@.len() as int),
{
    let ghost ts = views(keys@);
    let reps = latest_rows(keys, keys.len());
    let ghost rv = reps@.map_values(|x: usize| x as int);
    let mut out: Vec<Vec<usize>> = Vec::new();
    let mut k: usize = 0;
    while k < reps.len()
        invariant
            k <= reps@.len(),
            ts == views(keys@),
            rv == reps@.map_values(|x: usize| x as int),
            latest_kept(ts, keys@.len() as nat, rv),
            out@.len() == k,
            forall|q: int| 0 <= q < k ==> (#[trigger] out@[q])@.len() > 0 && out@[q]@[0] == reps@[q],
            forall|q: int| 0 <= q < k ==> (#[trigger] out@[q])@.map_values(|x: usize| x as int)
                == positions_of(ts, ts[reps@[q] as int], keys@.len() as int),
        decreases reps@.len() - k,
    {
        let rep = reps[k];
        assert(rv[k as int] == rep as int);
        let key = chars_of(keys[rep].as_str());
        let mut g: Vec<usize> = Vec::new();
        let mut i: usize = 0;
        while i < keys.len()
            invariant
                i <= keys@.len(),
                ts == views(keys@),
                rep < keys@.len(),
                key@ == ts[rep as int],
                g@.map_values(|x: usize| x as int) == positions_of(ts, ts[rep as int], i as int),
                forall|j: int| 0 <= j < rep ==> ts[j] != ts[rep as int],
                i > rep ==> g@.len() > 0 && g@[0] == rep,
                i <= rep ==> g@.len() == 0,
            decreases keys@.len() - i,
        {
            let c = chars_of(keys[i].as_str());
            assert(ts[i as int] == keys@[i as int]@);
            let ghost before = g@;
            if seq_eq(c.as_slice(), key.as_slice()) {
                g.push(i);
                assert(g@.map_values(|x: usize| x as int) =~= before.map_values(|x: usize| x as int).push(i as int));
            }
            proof {
                if i < rep {
                    assert(ts[i as int] != ts[rep as int]);
                }
            }
            i += 1;
        }
        let ghost before_out = out@;
        out.push(g);
        proof {
            assert(out@[k as int] == g);
            assert forall|q: int| 0 <= q < k + 1 implies (#[trigger] out@[q])@.len() > 0 && out@[q]@[0] == reps@[q] by {
                if q < k {
                    assert(out@[q] == before_out[q]);
                }
            }
            assert forall|q: int| 0 <= q < k + 1 implies (#[trigger] out@[q])@.map_values(|x: usize| x as int)
                == positions_of(ts, ts[reps@[q] as int], keys@.len() as int) by {
                if q < k {
                    assert(out@[q] == before_out[q]);
                }
            }
        }
        k += 1;
    }
    proof {
        let firsts = out@.map_values(|g: Vec<usize>| g@[0] as int);
        assert(firsts =~= rv);
    }
    out
}

/// The counts a group of trials is summarised by: bars, bars with a revision, candidate
/// finals, false finals, and the candidate and last-revision delays (negative ones
/// read as zero).
#[derive(Debug, Clone)]
pub struct TrialCounts {
    pub total_bars: usize,
    pub bars_with_revision: usize,
    pub candidate_final_count: usize,
    pub false_final_count: usize,
    pub candidate_delays_ms: Vec<i64>,
    pub revision_delays_ms: Vec<i64>,
}

/// A delay with negative values read as zero.
pub open spec fn clamp0(ms: i64) -> i64 {
    if ms < 0 { 0 } else { ms }
}

/// How many of the first `m` trials satisfy `p`.
pub open spec fn count_where(t: Seq<FinalityTrial>, m: int, p: spec_fn(FinalityTrial) -> bool) -> nat
    decreases m,
{
    if m <= 0 {
        0
    } else {
        count_where(t, m - 1, p) + if p(t[m - 1]) { 1nat } else { 0nat }
    }
}

/// The candidate delays of the first `m` trials that reached a candidate final and
/// record one, clamped at zero.
pub open spec fn candidate_delays(t: Seq<FinalityTrial>, m: int) -> Seq<i64>
    decreases m,
{
    if m <= 0 {
        Seq::empty()
    } else {
        let prev = candidate_delays(t, m - 1);
        match (t[m - 1].candidate_final_at, t[m - 1].candidate_delay_ms) {
            (Some(_), Some(ms)) => prev.push(clamp0(ms)),
            _ => prev,
        }
    }
}

/// The last-revision delays of the first `m` trials that record one, clamped at zero.
pub open spec fn revision_delays(t: Seq<FinalityTrial>, m: int) -> Seq<i64>
    decreases m,
{
    if m <= 0 {
        Seq::empty()
    } else {
        let prev = revision_delays(t, m - 1);
        match t[m - 1].last_revision_delay_ms {
            Some(ms) => prev.push(clamp0(ms)),
            None => prev,
        }
    }
}

/// Counts a group of trials (see `TrialCounts`).
#[verifier::rlimit(40)]
pub fn count_trials(trials: &[FinalityTrial], members: &[usize]) -> (c: TrialCounts)
    requires
        forall|k: int| 0 <= k < members@.len() ==> #[trigger] members@[k] < trials@.len(),
    ensures
        ({
            let t = members@.map_values(|i: usize| trials@[i as int]);
            &&& c.total_bars == members@.len()
            &&& c.bars_with_revision == count_where(t, t.len() as int, |x: FinalityTrial| x.revision_count > 0)
            &&& c.candidate_final_count == count_where(t, t.len() as int, |x: FinalityTrial| x.candidate_final_at is Some)
            &&& c.false_final_count == count_where(t, t.len() as int, |x: FinalityTrial| x.false_final)
            &&& c.candidate_delays_ms@ == candidate_delays(t, t.len() as int)
            &&& c.revision_delays_ms@ == revision_delays(t, t.len() as int)
        }),
{
    let ghost t = members@.map_values(|i: usize| trials@[i as int]);
    let mut rev: usize = 0;
    let mut cand: usize = 0;
    let mut ff: usize = 0;
    let mut cd: Vec<i64> = Vec::new();
    let mut rd: Vec<i64> = Vec::new();
    let mut k: usize = 0;
    while k < members.len()
        invariant
            k <= members@.len(),
            t == members@.map_values(|i: usize| trials@[i as int]),
            forall|q: int| 0 <= q < members@.len() ==> #[trigger] members@[q] < trials@.len(),
            rev == count_where(t, k as int, |x: FinalityTrial| x.revision_count > 0),
            cand == count_where(t, k as int, |x: FinalityTrial| x.candidate_final_at is Some),
            ff == count_where(t, k as int, |x: FinalityTrial| x.false_final),
            cd@ == candidate_delays(t, k as int),
            rd@ == revision_delays(t, k as int),
            rev <= k && cand <= k && ff <= k,
        decreases members@.len() - k,
    {
        let tr = &trials[members[k]];
        assert(t[k as int] == *tr);
        if tr.revision_count > 0 {
            rev += 1;
        }
        if tr.candidate_final_at.is_some() {
            cand += 1;
            match tr.candidate_delay_ms {
                Some(ms) => cd.push(if ms < 0 { 0 } else { ms }),
                None => {},
            }
        }
        if tr.false_final {
            ff += 1;
        }
        match tr.last_revision_delay_ms {
            Some(ms) => rd.push(if ms < 0 { 0 } else { ms }),
            None => {},
        }
        k += 1;
    }
    TrialCounts {
        total_bars: members.len(),
        bars_with_revision: rev,
        candidate_final_count: cand,
        false_final_count: ff,
        candidate_delays_ms: cd,
        revision_delays_ms: rd,
    }
}

} // verus!
