//! The decisions of pattern selection and signal checking that rest on bar indices
//! and per-bar flags: how many trend candles a leg holds, which pattern is the
//! latest, where the warning bar is, the state of a triggered signal, its notes and
//! entry obstacles, and which of several signals on one structure stays.
use vstd::prelude::*;

use crate::analyze::labels::SingleReversalKind;
use crate::analyze::model::Dir;

verus! {

/// How many of the bars `from..=to` carry the wanted flag (`flags[i]` is (up, down)).
pub open spec fn flag_count(flags: Seq<(bool, bool)>, from: int, to: int, up: bool) -> nat
    decreases to - from + 1,
{
    if to < from {
        0
    } else {
        flag_count(flags, from, to - 1, up) + (if (if up { flags[to].0 } else { flags[to].1 }) {
            1nat
        } else {
            0nat
        })
    }
}

proof fn lemma_flag_count_bound(flags: Seq<(bool, bool)>, from: int, to: int, up: bool)
    requires
        from <= to + 1,
    ensures
        flag_count(flags, from, to, up) <= to - from + 1,
    decreases to - from + 1,
{
    if to >= from {
        lemma_flag_count_bound(flags, from, to - 1, up);
    }
}

/// Counts the bars `from..=to` that carry the up flag (`up`) or the down flag.
pub fn count_flags(flags: &[(bool, bool)], from: usize, to: usize, up: bool) -> (r: usize)
    requires
        from <= to < flags@.len(),
    ensures
        r == flag_count(flags@, from as int, to as int, up),
{
    let mut i: usize = from;
    let mut r: usize = 0;
    while i <= to
        invariant
            from <= i <= to + 1,
            to < flags@.len(),
            r == flag_count(flags@, from as int, i - 1, up),
        decreases to + 1 - i,
    {
        proof {
            lemma_flag_count_bound(flags@, from as int, i - 1, up);
        }
        let (u, d) = flags[i];
        if (up && u) || (!up && d) {
            r += 1;
        }
        i += 1;
    }
    r
}

/// The relaxed trend candles in the trade's direction over the a-leg `s0..=s1`
/// (up flags for a long, down flags for a short).
pub fn a_leg_strong_count(dir: Dir, s0: usize, s1: usize, trend_k_relaxed: &[(bool, bool)]) -> (r: usize)
    requires
        s0 <= s1 < trend_k_relaxed@.len(),
    ensures
        r == flag_count(trend_k_relaxed@, s0 as int, s1 as int, dir == Dir::Up),
{
    count_flags(trend_k_relaxed, s0, s1, dir == Dir::Up)
}

/// The strong candles against the trade over the b-leg `s1+1..=s2` (down flags for a
/// long, up flags for a short); none when the leg is empty.
pub fn b_leg_reverse_count(dir: Dir, s1: usize, s2: usize, trend_k: &[(bool, bool)]) -> (r: usize)
    requires
        s2 < trend_k@.len(),
    ensures
        r == flag_count(trend_k@, s1 + 1, s2 as int, dir == Dir::Down),
{
    if s1 >= s2 {
        0
    } else {
        count_flags(trend_k, s1 + 1, s2, dir == Dir::Down)
    }
}

/// Pattern `k` of `pats` (each its direction and b-leg end) is the latest of direction
/// `dir`: no pattern of that direction ends later, and none before it ends as late.
pub open spec fn is_latest(pats: Seq<(Dir, usize)>, dir: Dir, k: int) -> bool {
    &&& 0 <= k < pats.len()
    &&& pats[k].0 == dir
    &&& forall|j: int| 0 <= j < pats.len() && pats[j].0 == dir ==> pats[j].1 <= pats[k].1
    &&& forall|j: int| 0 <= j < k && pats[j].0 == dir ==> pats[j].1 < pats[k].1
}

/// The latest pattern of a direction: the one whose b-leg ends last, the first such on
/// a tie; `None` when no pattern has that direction.
pub fn latest_pattern(pats: &[(Dir, usize)], dir: Dir) -> (r: Option<usize>)
    ensures
        match r {
            Some(k) => is_latest(pats@, dir, k as int),
            None => forall|j: int| 0 <= j < pats@.len() ==> pats@[j].0 != dir,
        },
{
    let mut best: Option<usize> = None;
    let mut i: usize = 0;
    while i < pats.len()
        invariant
            i <= pats@.len(),
            match best {
                Some(k) => k < i && is_latest(pats@.subrange(0, i as int), dir, k as int),
                None => forall|j: int| 0 <= j < i ==> pats@[j].0 != dir,
            },
        decreases pats@.len() - i,
    {
        let (d, end) = pats[i];
        let take = d == dir && match best {
            None => true,
            Some(k) => end > pats[k].1,
        };
        if take {
            best = Some(i);
        }
        proof {
            let s = pats@.subrange(0, i + 1);
            assert(s[i as int] == pats@[i as int]);
            assert forall|j: int| 0 <= j < i implies s[j] == pats@.subrange(0, i as int)[j] by {}
        }
        i += 1;
    }
    proof {
        assert(pats@.subrange(0, pats@.len() as int) =~= pats@);
    }
    best
}

/// The order in which active signals are summarised: about to trigger, triggered now,
/// triggered near the time limit, then the rest.
pub fn signal_priority(state: &str) -> (r: u8)
    ensures
        r == if state@ == "即将触发"@ {
            0u8
        } else if state@ == "当前已触发"@ {
            1u8
        } else if state@ == "已触发，接近时效边界"@ {
            2u8
        } else {
            3u8
        },
{
    if crate::text::str_eq(state, "即将触发") {
        0
    } else if crate::text::str_eq(state, "当前已触发") {
        1
    } else if crate::text::str_eq(state, "已触发，接近时效边界") {
        2
    } else {
        3
    }
}

/// The state of a triggered signal by its age in bars: failed structures first, then
/// triggered now (at most 2 bars ago), near the time limit (at most 6), stale.
pub fn triggered_state(hard_failure: bool, trigger_age: usize) -> (s: &'static str)
    ensures
        s@ == if hard_failure {
            "结构失效"@
        } else if trigger_age <= 2 {
            "当前已触发"@
        } else if trigger_age <= 6 {
            "已触发，接近时效边界"@
        } else {
            "已过时，仅复盘"@
        },
{
    if hard_failure {
        "结构失效"
    } else if trigger_age <= 2 {
        "当前已触发"
    } else if trigger_age <= 6 {
        "已触发，接近时效边界"
    } else {
        "已过时，仅复盘"
    }
}

/// The first bar of the run of opposite closes that holds bar `j`, runs starting no
/// earlier than `lo`.
pub open spec fn run_start(opp: Seq<bool>, lo: int, j: int) -> int
    decreases j - lo,
{
    if j > lo && opp[j - 1] {
        run_start(opp, lo, j - 1)
    } else {
        j
    }
}

proof fn lemma_run_start_range(opp: Seq<bool>, lo: int, j: int)
    requires
        lo <= j,
    ensures
        lo <= run_start(opp, lo, j) <= j,
    decreases j - lo,
{
    if j > lo && opp[j - 1] {
        lemma_run_start_range(opp, lo, j - 1);
    }
}

/// The name of a single-bar reversal.
pub open spec fn reversal_name(k: SingleReversalKind) -> Seq<char> {
    match k {
        SingleReversalKind::Strong => "strong"@,
        SingleReversalKind::Wick => "wick"@,
    }
}

/// What the search reads of the bars after the b-leg end `s2`: for each bar whether it
/// closes against the b-leg (`opposite`), its single-bar reversal when it starts its
/// run (`single_first`) or continues one (`single_later`), whether it is a strong
/// anchor (`anchor_strong`: a strict trend candle or a big body against the trade),
/// and `covers[a][j]`: bar `j` closes beyond the open of anchor `a`.
pub struct WarningFacts {
    pub opposite: Vec<bool>,
    pub single_first: Vec<Option<SingleReversalKind>>,
    pub single_later: Vec<Option<SingleReversalKind>>,
    pub anchor_strong: Vec<bool>,
    pub covers: Vec<Vec<bool>>,
}

impl WarningFacts {
    /// Every fact is there for the bars before `end`, the coverage rows for the anchors
    /// from `lo - 1` on.
    pub open spec fn covers_bars(&self, lo: int, end: int) -> bool {
        &&& self.opposite@.len() >= end
        &&& self.single_first@.len() >= end
        &&& self.single_later@.len() >= end
        &&& self.anchor_strong@.len() >= end
        &&& self.covers@.len() >= end
        &&& forall|a: int| lo - 1 <= a < end ==> (#[trigger] self.covers@[a])@.len() >= end
    }

    /// The single-bar reversal at `j` in the run that starts at `r`.
    pub open spec fn single_at(&self, r: int, j: int) -> Option<SingleReversalKind> {
        if j == r {
            self.single_first@[j]
        } else {
            self.single_later@[j]
        }
    }

    /// Bar `j` confirms by cumulative coverage in the run that starts at `r`: allowed
    /// outside the strict 2.0 rules when the anchor before the run is strong or the
    /// structure asks for strict confirmation, from the run's second bar on.
    pub open spec fn cumulative_at(&self, r: int, j: int, strict: bool, v2: bool) -> bool {
        !v2 && (self.anchor_strong@[r - 1] || strict) && j >= r + 1 && self.covers@[r - 1]@[j]
    }

    /// Bar `j` is a warning bar: it closes against the b-leg and confirms alone or by
    /// coverage, in its run from `lo` on.
    pub open spec fn warns_at(&self, lo: int, j: int, strict: bool, v2: bool) -> bool {
        let r = run_start(self.opposite@, lo, j);
        self.opposite@[j] && (self.single_at(r, j) is Some || self.cumulative_at(r, j, strict, v2))
    }
}

/// The last bar before `j`, from `lo` on, that closes against the b-leg.
pub open spec fn last_opposite(opp: Seq<bool>, lo: int, j: int) -> Option<int>
    decreases j - lo,
{
    if j <= lo {
        None
    } else if opp[j - 1] {
        Some(j - 1)
    } else {
        last_opposite(opp, lo, j - 1)
    }
}

/// The outcome of the warning search.
pub enum WarningSearch {
    /// The warning bar, the name of how it confirmed, and whether only cumulative
    /// coverage confirmed it.
    Found { index: usize, kind: &'static str, cumulative: bool },
    /// No warning bar; whether the last run was guarded (strong anchor or strict
    /// confirmation) and whether its anchor was strong.
    Missing { guard_active: bool, guard_anchor_strong: bool },
}

/// The guard of the last run of opposite closes before `end` (none when there is no run).
pub open spec fn last_guard(f: WarningFacts, lo: int, end: int, strict: bool) -> (bool, bool) {
    match last_opposite(f.opposite@, lo, end) {
        None => (false, false),
        Some(q) => {
            let a = f.anchor_strong@[run_start(f.opposite@, lo, q) - 1];
            (a || strict, a)
        },
    }
}

/// Finds the warning bar after the b-leg end `s2`, before `end`: `s2` itself when it is
/// a single-bar reversal (`s2_single`), else the first bar after it that warns (see
/// `WarningFacts::warns_at`).
#[verifier::rlimit(40)]
pub fn find_warning(
    facts: &WarningFacts,
    s2: usize,
    end: usize,
    s2_single: Option<SingleReversalKind>,
    strict: bool,
    v2: bool,
) -> (r: WarningSearch)
    requires
        s2 < end,
        facts.covers_bars(s2 + 1, end as int),
    ensures
        match s2_single {
            Some(k) => r == WarningSearch::Found { index: s2, kind: r->kind, cumulative: false }
                && r->kind@ == reversal_name(k),
            None => match r {
                WarningSearch::Found { index, kind, cumulative } => {
                    &&& s2 < index < end
                    &&& facts.warns_at(s2 + 1, index as int, strict, v2)
                    &&& forall|j: int| s2 < j < index ==> !#[trigger] facts.warns_at(s2 + 1, j, strict, v2)
                    &&& {
                        let run = run_start(facts.opposite@, s2 + 1, index as int);
                        let single = facts.single_at(run, index as int);
                        &&& cumulative == (single is None)
                        &&& kind@ == match single {
                            Some(k) => reversal_name(k),
                            None => "cumulative"@,
                        }
                    }
                },
                WarningSearch::Missing { guard_active, guard_anchor_strong } => {
                    &&& forall|j: int| s2 < j < end ==> !#[trigger] facts.warns_at(s2 + 1, j, strict, v2)
                    &&& (guard_active, guard_anchor_strong) == last_guard(*facts, s2 + 1, end as int, strict)
                },
            },
        },
{
    if let Some(k) = s2_single {
        return WarningSearch::Found { index: s2, kind: k.as_str(), cumulative: false };
    }
    let lo = s2 + 1;
    let ghost opp = facts.opposite@;
    let mut r: usize = lo;
    let mut guard_active = false;
    let mut guard_anchor_strong = false;
    let mut j: usize = lo;
    while j < end
        invariant
            s2_single is None,
            s2 < lo == s2 + 1 <= j <= end,
            facts.covers_bars(lo as int, end as int),
            opp == facts.opposite@,
            lo <= r <= j,
            j > lo && opp[j - 1] ==> r == run_start(opp, lo as int, j - 1),
            forall|i: int| lo <= i < j ==> !#[trigger] facts.warns_at(lo as int, i, strict, v2),
            (guard_active, guard_anchor_strong) == match last_opposite(opp, lo as int, j as int) {
                None => (false, false),
                Some(q) => {
                    let a = facts.anchor_strong@[run_start(opp, lo as int, q) - 1];
                    (a || strict, a)
                },
            },
        decreases end - j,
    {
        if facts.opposite[j] {
            if j == lo || !facts.opposite[j - 1] {
                r = j;
            }
            assert(r == run_start(opp, lo as int, j as int));
            proof {
                lemma_run_start_range(opp, lo as int, j as int);
            }
            guard_anchor_strong = facts.anchor_strong[r - 1];
            guard_active = guard_anchor_strong || strict;
            let single = if j == r {
                facts.single_first[j]
            } else {
                facts.single_later[j]
            };
            let cumul = !v2 && (guard_anchor_strong || strict) && j >= r + 1 && facts.covers[r - 1][j];
            if single.is_some() || cumul {
                let kind = match single {
                    Some(k) => k.as_str(),
                    None => "cumulative",
                };
                return WarningSearch::Found { index: j, kind, cumulative: single.is_none() };
            }
        }
        j += 1;
    }
    WarningSearch::Missing { guard_active, guard_anchor_strong }
}

/// Texts joined by a separator.
pub open spec fn joined(parts: Seq<Seq<char>>, sep: Seq<char>) -> Seq<char>
    decreases parts.len(),
{
    if parts.len() == 0 {
        Seq::empty()
    } else if parts.len() == 1 {
        parts[0]
    } else {
        joined(parts.drop_last(), sep) + sep + parts.last()
    }
}

/// Joins texts with a separator, as `[&str]::join`.
pub fn join_texts(parts: &[&str], sep: &str) -> (s: String)
    ensures
        s@ == joined(parts@.map_values(|p: &str| p@), sep@),
{
    let ghost views = parts@.map_values(|p: &str| p@);
    let mut v: Vec<char> = Vec::new();
    let sep_chars = crate::text::chars_of(sep);
    let mut i: usize = 0;
    while i < parts.len()
        invariant
            i <= parts@.len(),
            views == parts@.map_values(|p: &str| p@),
            sep_chars@ == sep@,
            v@ == joined(views.subrange(0, i as int), sep@),
        decreases parts@.len() - i,
    {
        if i > 0 {
            crate::text::push_chars(&mut v, sep_chars.as_slice());
        }
        let part = crate::text::chars_of(parts[i]);
        crate::text::push_chars(&mut v, part.as_slice());
        proof {
            let next = views.subrange(0, i + 1);
            assert(next.drop_last() =~= views.subrange(0, i as int));
            assert(next.last() == parts@[i as int]@);
            if i == 0 {
                assert(v@ =~= joined(next, sep@));
            }
        }
        i += 1;
    }
    proof {
        assert(views.subrange(0, parts@.len() as int) =~= views);
    }
    crate::text::string_from_chars(v.as_slice())
}

/// The note of a signal without a warning bar: why it waits.
pub fn no_warning_note(guard_active: bool, guard_anchor_strong: bool, v2: bool) -> (s: &'static str)
    ensures
        s@ == if guard_active {
            if v2 {
                "2.0要求预警K线必须为强反转/长影线形态，等待更强反转确认"@
            } else if guard_anchor_strong {
                "b段末为强反向实体（强趋势K或大实体），当前反向K线未形成强反转/累积覆盖形态，等待更强反转确认"@
            } else {
                "B/C级结构要求反转预警具备强反转/长影线/累积覆盖形态，等待更强反转确认"@
            }
        } else {
            "b端后尚未出现与原方向一致的反转预警"@
        },
{
    if guard_active {
        if v2 {
            "2.0要求预警K线必须为强反转/长影线形态，等待更强反转确认"
        } else if guard_anchor_strong {
            "b段末为强反向实体（强趋势K或大实体），当前反向K线未形成强反转/累积覆盖形态，等待更强反转确认"
        } else {
            "B/C级结构要求反转预警具备强反转/长影线/累积覆盖形态，等待更强反转确认"
        }
    } else {
        "b端后尚未出现与原方向一致的反转预警"
    }
}

/// The obstacles to entering a triggered signal, in report order: a big opposite body
/// at the b-leg end, a big opposite body just before the trigger, a long wick against
/// the trade on the trigger bar.
pub open spec fn block_parts(dir: Dir, b_end: bool, prev: bool, wick: bool) -> Seq<Seq<char>> {
    let up = dir == Dir::Up;
    (if b_end { seq![if up { "b段末K大实体阴线"@ } else { "b段末K大实体阳线"@ }] } else { seq![] })
        + (if prev { seq![if up { "前一根大实体阴线"@ } else { "前一根大实体阳线"@ }] } else { seq![] })
        + (if wick { seq![if up { "触发K线长上影"@ } else { "触发K线长下影"@ }] } else { seq![] })
}

/// The number of entry obstacles and their description joined by ` + `.
pub fn entry_blocks(dir: Dir, b_end: bool, prev: bool, wick: bool) -> (r: (u8, String))
    ensures
        r.0 == block_parts(dir, b_end, prev, wick).len(),
        r.1@ == joined(block_parts(dir, b_end, prev, wick), " + "@),
{
    let up = match dir {
        Dir::Up => true,
        Dir::Down => false,
    };
    let mut parts: Vec<&str> = Vec::new();
    if b_end {
        parts.push(if up { "b段末K大实体阴线" } else { "b段末K大实体阳线" });
    }
    if prev {
        parts.push(if up { "前一根大实体阴线" } else { "前一根大实体阳线" });
    }
    if wick {
        parts.push(if up { "触发K线长上影" } else { "触发K线长下影" });
    }
    let n: u8 = b_end as u8 + prev as u8 + wick as u8;
    proof {
        assert(parts@.map_values(|p: &str| p@) =~= block_parts(dir, b_end, prev, wick));
    }
    (n, join_texts(parts.as_slice(), " + "))
}

/// The remarks of a pattern, in report order, ending with the reminder that the
/// decision point is no take-profit (`rr_short`: the reward-to-risk is positive but
/// under one).
pub open spec fn note_parts(grade_c: bool, a_too_long: bool, b_fast: bool, b_weakening: bool, c_extended: bool, rr_short: bool) -> Seq<Seq<char>> {
    (if grade_c { seq!["C级默认半仓，需更严格触发"@] } else { seq![] })
        + (if a_too_long { seq!["a段偏长"@] } else { seq![] })
        + (if b_fast { seq!["b段偏快"@] } else { seq![] })
        + (if b_weakening { seq!["b段动能衰减"@] } else { seq![] })
        + (if c_extended { seq!["c段已透支"@] } else { seq![] })
        + (if rr_short { seq!["决策点RR不足1，可按破位预期评估"@] } else { seq![] })
        + seq!["前低/前高为决策点，不必然止盈"@]
}

/// The remarks of a pattern joined by `；` (see `note_parts`).
pub fn build_note(grade_c: bool, a_too_long: bool, b_fast: bool, b_weakening: bool, c_extended: bool, rr_short: bool) -> (s: String)
    ensures
        s@ == joined(note_parts(grade_c, a_too_long, b_fast, b_weakening, c_extended, rr_short), "；"@),
{
    let mut parts: Vec<&str> = Vec::new();
    if grade_c {
        parts.push("C级默认半仓，需更严格触发");
    }
    if a_too_long {
        parts.push("a段偏长");
    }
    if b_fast {
        parts.push("b段偏快");
    }
    if b_weakening {
        parts.push("b段动能衰减");
    }
    if c_extended {
        parts.push("c段已透支");
    }
    if rr_short {
        parts.push("决策点RR不足1，可按破位预期评估");
    }
    parts.push("前低/前高为决策点，不必然止盈");
    proof {
        assert(parts@.map_values(|p: &str| p@) =~= note_parts(grade_c, a_too_long, b_fast, b_weakening, c_extended, rr_short));
    }
    join_texts(parts.as_slice(), "；")
}

/// Position `k` holds the first occurrence of its key.
pub open spec fn first_of_key(keys: Seq<(Dir, usize, usize)>, k: int) -> bool {
    0 <= k < keys.len() && forall|j: int| 0 <= j < k ==> keys[j] != keys[k]
}

/// The positions of the first occurrence of each key (direction, a-leg end, b-leg end),
/// in order: of signals with the same structure only the first one, the best after
/// sorting, stays.
pub fn first_per_structure(keys: &[(Dir, usize, usize)]) -> (r: Vec<usize>)
    ensures
        forall|a: int, b: int| 0 <= a < b < r@.len() ==> r@[a] < r@[b],
        forall|a: int| 0 <= a < r@.len() ==> first_of_key(keys@, #[trigger] r@[a] as int),
        forall|k: int| first_of_key(keys@, k) ==> exists|a: int| 0 <= a < r@.len() && r@[a] == k,
{
    let mut r: Vec<usize> = Vec::new();
    let mut i: usize = 0;
    while i < keys.len()
        invariant
            i <= keys@.len(),
            forall|a: int, b: int| 0 <= a < b < r@.len() ==> r@[a] < r@[b],
            forall|a: int| 0 <= a < r@.len() ==> r@[a] < i && first_of_key(keys@, #[trigger] r@[a] as int),
            forall|k: int| 0 <= k < i && first_of_key(keys@, k) ==> exists|a: int| 0 <= a < r@.len() && r@[a] == k,
        decreases keys@.len() - i,
    {
        let key = keys[i];
        let mut seen = false;
        let mut j: usize = 0;
        while j < i
            invariant
                i < keys@.len(),
                j <= i,
                key == keys@[i as int],
                seen == exists|q: int| 0 <= q < j && keys@[q] == key,
            decreases i - j,
        {
            let other = keys[j];
            if other.0 == key.0 && other.1 == key.1 && other.2 == key.2 {
                seen = true;
            }
            j += 1;
        }
        if !seen {
            let ghost old_r = r@;
            r.push(i);
            proof {
                assert forall|k: int| 0 <= k < i + 1 && first_of_key(keys@, k) implies exists|a: int| 0 <= a < r@.len() && r@[a] == k by {
                    if k == i {
                        assert(r@[old_r.len() as int] == k);
                    } else {
                        let a = choose|a: int| 0 <= a < old_r.len() && old_r[a] == k;
                        assert(r@[a] == k);
                    }
                }
            }
        } else {
            proof {
                let q = choose|q: int| 0 <= q < i && keys@[q] == key;
                assert(!first_of_key(keys@, i as int));
            }
        }
        i += 1;
    }
    r
}

} // verus!
