//! Higher timeframes derived from the 5m base series.
//!
//! Minute timeframes bucket by calendar time aligned to the target size and stamp a
//! bucket with its end (the source's convention); bars more than five minutes apart
//! start a new bucket even inside one calendar bucket; partial buckets at session ends
//! are kept. Daily bars group by trading day, the night session (from 20:00) counting
//! to the next day.
pub mod rollover;

use vstd::prelude::*;

use crate::clock::{
    chrono_format_datetime, chrono_next_day, chrono_parse_datetime, chrono_seconds_between, format_datetime,
    next_day, parse_datetime, seconds_between,
};
use crate::text::{chars_of, eq_lit, opt_view, owned, views};

verus! {

/// A bar timeframe.
#[derive(Debug, Clone, Copy, PartialEq, Eq, Hash, Structural)]
pub enum Timeframe {
    M5,
    M15,
    M30,
    M60,
    M120,
    M240,
    Day,
}

/// The name of a timeframe.
pub open spec fn timeframe_name(t: Timeframe) -> Seq<char> {
    match t {
        Timeframe::M5 => "5m"@,
        Timeframe::M15 => "15m"@,
        Timeframe::M30 => "30m"@,
        Timeframe::M60 => "60m"@,
        Timeframe::M120 => "120m"@,
        Timeframe::M240 => "240m"@,
        Timeframe::Day => "1d"@,
    }
}

/// The timeframe a name stands for (`day` also names the daily timeframe).
pub open spec fn timeframe_from_name(s: Seq<char>) -> Option<Timeframe> {
    if s == "5m"@ {
        Some(Timeframe::M5)
    } else if s == "15m"@ {
        Some(Timeframe::M15)
    } else if s == "30m"@ {
        Some(Timeframe::M30)
    } else if s == "60m"@ {
        Some(Timeframe::M60)
    } else if s == "120m"@ {
        Some(Timeframe::M120)
    } else if s == "240m"@ {
        Some(Timeframe::M240)
    } else if s == "1d"@ || s == "day"@ {
        Some(Timeframe::Day)
    } else {
        None
    }
}

/// Minutes per bar; `None` for the daily timeframe.
pub open spec fn timeframe_minutes(t: Timeframe) -> Option<i64> {
    match t {
        Timeframe::M5 => Some(5),
        Timeframe::M15 => Some(15),
        Timeframe::M30 => Some(30),
        Timeframe::M60 => Some(60),
        Timeframe::M120 => Some(120),
        Timeframe::M240 => Some(240),
        Timeframe::Day => None,
    }
}

impl Timeframe {
    pub fn parse(s: &str) -> (t: Option<Self>)
        ensures
            t == timeframe_from_name(s@),
    {
        let k = chars_of(s);
        if eq_lit(k.as_slice(), "5m") {
            Some(Self::M5)
        } else if eq_lit(k.as_slice(), "15m") {
            Some(Self::M15)
        } else if eq_lit(k.as_slice(), "30m") {
            Some(Self::M30)
        } else if eq_lit(k.as_slice(), "60m") {
            Some(Self::M60)
        } else if eq_lit(k.as_slice(), "120m") {
            Some(Self::M120)
        } else if eq_lit(k.as_slice(), "240m") {
            Some(Self::M240)
        } else if eq_lit(k.as_slice(), "1d") || eq_lit(k.as_slice(), "day") {
            Some(Self::Day)
        } else {
            None
        }
    }

    pub fn as_str(self) -> (s: &'static str)
        ensures
            s@ == timeframe_name(self),
    {
        match self {
            Self::M5 => "5m",
            Self::M15 => "15m",
            Self::M30 => "30m",
            Self::M60 => "60m",
            Self::M120 => "120m",
            Self::M240 => "240m",
            Self::Day => "1d",
        }
    }

    pub fn minutes(self) -> (m: Option<i64>)
        ensures
            m == timeframe_minutes(self),
    {
        match self {
            Self::M5 => Some(5),
            Self::M15 => Some(15),
            Self::M30 => Some(30),
            Self::M60 => Some(60),
            Self::M120 => Some(120),
            Self::M240 => Some(240),
            Self::Day => None,
        }
    }

    /// All timeframes, smallest first.
    pub fn supported() -> (v: Vec<Self>)
        ensures
            v@ == seq![Timeframe::M5, Timeframe::M15, Timeframe::M30, Timeframe::M60, Timeframe::M120, Timeframe::M240, Timeframe::Day],
    {
        let v = vec![Self::M5, Self::M15, Self::M30, Self::M60, Self::M120, Self::M240, Self::Day];
        assert(v@ =~= seq![Timeframe::M5, Timeframe::M15, Timeframe::M30, Timeframe::M60, Timeframe::M120, Timeframe::M240, Timeframe::Day]);
        v
    }
}

/// Every timeframe reads back from its name.
pub proof fn law_timeframe_name_round_trip(t: Timeframe)
    ensures
        timeframe_from_name(timeframe_name(t)) == Some(t),
{
    reveal_strlit("5m");
    reveal_strlit("15m");
    reveal_strlit("30m");
    reveal_strlit("60m");
    reveal_strlit("120m");
    reveal_strlit("240m");
    reveal_strlit("1d");
    reveal_strlit("day");
    match t {
        Timeframe::M5 => {},
        Timeframe::M15 => {
            assert("15m"@.len() != "5m"@.len());
        },
        Timeframe::M30 => {
            assert("30m"@.len() != "5m"@.len());
            assert("30m"@[0] != "15m"@[0]);
        },
        Timeframe::M60 => {
            assert("60m"@.len() != "5m"@.len());
            assert("60m"@[0] != "15m"@[0]);
            assert("60m"@[0] != "30m"@[0]);
        },
        Timeframe::M120 => {
            assert("120m"@.len() != "5m"@.len());
            assert("120m"@.len() != "15m"@.len());
            assert("120m"@.len() != "30m"@.len());
            assert("120m"@.len() != "60m"@.len());
        },
        Timeframe::M240 => {
            assert("240m"@.len() != "5m"@.len());
            assert("240m"@.len() != "15m"@.len());
            assert("240m"@.len() != "30m"@.len());
            assert("240m"@.len() != "60m"@.len());
            assert("240m"@[0] != "120m"@[0]);
        },
        Timeframe::Day => {
            assert("1d"@[1] != "5m"@[1]);
            assert("1d"@.len() != "15m"@.len());
            assert("1d"@.len() != "30m"@.len());
            assert("1d"@.len() != "60m"@.len());
            assert("1d"@.len() != "120m"@.len());
            assert("1d"@.len() != "240m"@.len());
        },
    }
}

/// Where a bar goes: a minute bucket (date and the bucket's start minute of the day)
/// or a trading day.
#[derive(Debug, Clone, Copy, PartialEq, Eq, Structural)]
pub enum BucketKey {
    Minute(i32, u32, u32, i64),
    Day(i32, u32, u32),
}

/// The trading day of a moment: from 20:00 the night session counts to the next day.
pub open spec fn trading_day_of(t: (i32, u32, u32, u32, u32, u32)) -> Option<(i32, u32, u32)> {
    if t.3 >= 20 {
        chrono_next_day((t.0, t.1, t.2))
    } else {
        Some((t.0, t.1, t.2))
    }
}

/// The trading day of a moment (see `trading_day_of`).
pub fn trading_day(t: (i32, u32, u32, u32, u32, u32)) -> (r: Option<(i32, u32, u32)>)
    ensures
        r == trading_day_of(t),
{
    if t.3 >= 20 {
        next_day((t.0, t.1, t.2))
    } else {
        Some((t.0, t.1, t.2))
    }
}

/// Only the night session, from 20:00 on, belongs to the next trading day: a moment
/// before 20:00 keeps its own calendar date, whatever its hour (the small hours of a
/// night session included); a moment from 20:00 on belongs to the next calendar day,
/// which is the next day of the month, else the first of the next month, else New
/// Year's Day of the next year; an invalid date from 20:00 on has none.
pub proof fn law_trading_day_moves_only_from_20h(t: (i32, u32, u32, u32, u32, u32))
    ensures
        t.3 < 20 ==> trading_day_of(t) == Some((t.0, t.1, t.2)),
        20 <= t.3 && crate::clock::valid_date((t.0, t.1, t.2)) && t.2 < crate::clock::days_of_month(t.0 as int, t.1 as int)
            ==> trading_day_of(t) == Some((t.0, t.1, (t.2 + 1) as u32)),
        20 <= t.3 && crate::clock::valid_date((t.0, t.1, t.2)) && t.2 == crate::clock::days_of_month(t.0 as int, t.1 as int)
            && t.1 < 12 ==> trading_day_of(t) == Some((t.0, (t.1 + 1) as u32, 1u32)),
        20 <= t.3 && crate::clock::valid_date((t.0, t.1, t.2)) && t.1 == 12 && t.2 == 31 && t.0 < 262142
            ==> trading_day_of(t) == Some(((t.0 + 1) as i32, 1u32, 1u32)),
        20 <= t.3 && !crate::clock::valid_date((t.0, t.1, t.2)) ==> trading_day_of(t) is None,
{
}

/// The end minute of the calendar bucket of size `m` holding a bar stamped at minute
/// `e` of its day: bars are stamped at their end, so the bucket is the first whose end
/// is not before the stamp (and never ends before minute `m`).
pub open spec fn bucket_end_minute(e: int, m: int) -> int {
    let k = (e + m - 1) / m;
    (if k < 1 {
        1
    } else {
        k
    }) * m
}

/// The bucket of a moment for a target timeframe.
pub open spec fn bucket_key_of(t: (i32, u32, u32, u32, u32, u32), target: Timeframe) -> Option<BucketKey> {
    match timeframe_minutes(target) {
        Some(m) => {
            let e = t.3 as int * 60 + t.4 as int;
            Some(BucketKey::Minute(t.0, t.1, t.2, (bucket_end_minute(e, m as int) - m) as i64))
        },
        None => match trading_day_of(t) {
            Some(d) => Some(BucketKey::Day(d.0, d.1, d.2)),
            None => None,
        },
    }
}

fn bucket_key(t: (i32, u32, u32, u32, u32, u32), target: Timeframe) -> (r: Option<BucketKey>)
    requires
        t.3 < 24 && t.4 < 60,
    ensures
        r == bucket_key_of(t, target),
{
    match target.minutes() {
        Some(m) => {
            let e: i64 = t.3 as i64 * 60 + t.4 as i64;
            let k = (e + m - 1) / m;
            let end = if k < 1 {
                1
            } else {
                k
            } * m;
            Some(BucketKey::Minute(t.0, t.1, t.2, end - m))
        },
        None => match trading_day(t) {
            Some(d) => Some(BucketKey::Day(d.0, d.1, d.2)),
            None => None,
        },
    }
}

/// The timestamp of a bucket: a minute bucket is stamped at its end (the next day's
/// 00:00 for the last bucket of a day), a daily bucket at 15:00 of its trading day.
pub open spec fn bucket_stamp(key: BucketKey, target: Timeframe) -> Option<Seq<char>> {
    match key {
        BucketKey::Minute(y, mo, dd, start) => {
            let m = match timeframe_minutes(target) {
                Some(m) => m as int,
                None => 5,
            };
            let end = start + m;
            if end < 1440 {
                chrono_format_datetime((y, mo, dd, (end / 60) as u32, (end % 60) as u32, 0))
            } else {
                match chrono_next_day((y, mo, dd)) {
                    Some(n) => chrono_format_datetime((n.0, n.1, n.2, ((end - 1440) / 60) as u32, ((end - 1440) % 60) as u32, 0)),
                    None => None,
                }
            }
        },
        BucketKey::Day(y, mo, dd) => chrono_format_datetime((y, mo, dd, 15, 0, 0)),
    }
}

fn bucket_ts(key: BucketKey, target: Timeframe) -> (r: Option<String>)
    requires
        key matches BucketKey::Minute(_, _, _, s) ==> 0 <= s && s < 1440,
    ensures
        r matches Some(s) ==> bucket_stamp(key, target) == Some(s@),
        r is None ==> bucket_stamp(key, target) is None,
{
    match key {
        BucketKey::Minute(y, mo, dd, start) => {
            let m: i64 = match target.minutes() {
                Some(m) => m,
                None => 5,
            };
            let end = start + m;
            if end < 1440 {
                format_datetime((y, mo, dd, (end / 60) as u32, (end % 60) as u32, 0))
            } else {
                match next_day((y, mo, dd)) {
                    Some(n) => format_datetime((n.0, n.1, n.2, ((end - 1440) / 60) as u32, ((end - 1440) % 60) as u32, 0)),
                    None => None,
                }
            }
        },
        BucketKey::Day(y, mo, dd) => format_datetime((y, mo, dd, 15, 0, 0)),
    }
}

/// One derived bar: the positions of the base bars it merges, in order, and its
/// timestamp (`None` only where chrono cannot print the bucket's end).
#[derive(Debug, Clone)]
pub struct BucketSpan {
    pub members: Vec<usize>,
    pub ts: Option<String>,
}

/// The bucket of base bar `i`: `None` where its timestamp does not read as a date and
/// time, or its trading day has no successor in chrono's calendar.
pub open spec fn key_at(ts: Seq<Seq<char>>, i: int, target: Timeframe) -> Option<BucketKey> {
    match chrono_parse_datetime(ts[i]) {
        Some(t) => bucket_key_of(t, target),
        None => None,
    }
}

/// Bar `i` takes part in the aggregation: it has a bucket.
pub open spec fn readable(ts: Seq<Seq<char>>, i: int, target: Timeframe) -> bool {
    key_at(ts, i, target) is Some
}

/// The last bar before position `n` that takes part.
pub open spec fn last_readable(ts: Seq<Seq<char>>, target: Timeframe, n: int) -> Option<int>
    decreases n,
{
    if n <= 0 {
        None
    } else if readable(ts, n - 1, target) {
        Some(n - 1)
    } else {
        last_readable(ts, target, n - 1)
    }
}

/// Bar `i` opens a new derived bar after the bar `prev` that took part before it: its
/// bucket differs, or, for minute timeframes, more than five whole minutes separate
/// them (a session break).
pub open spec fn starts_bucket(ts: Seq<Seq<char>>, prev: int, i: int, target: Timeframe) -> bool {
    ||| key_at(ts, prev, target) != key_at(ts, i, target)
    ||| (timeframe_minutes(target) is Some && match chrono_seconds_between(
        chrono_parse_datetime(ts[i]).unwrap(),
        chrono_parse_datetime(ts[prev]).unwrap(),
    ) {
        Some(s) => s >= 360,
        None => false,
    })
}

/// The groups of base positions that the first `n` bars form.
pub open spec fn groups(ts: Seq<Seq<char>>, target: Timeframe, n: int) -> Seq<Seq<int>>
    decreases n,
{
    if n <= 0 {
        Seq::empty()
    } else {
        let g = groups(ts, target, n - 1);
        let i = n - 1;
        if !readable(ts, i, target) {
            g
        } else {
            match last_readable(ts, target, n - 1) {
                None => g.push(seq![i]),
                Some(p) => if starts_bucket(ts, p, i, target) {
                    g.push(seq![i])
                } else {
                    g.update(g.len() - 1, g.last().push(i))
                },
            }
        }
    }
}

/// The positions of a span, as integers.
pub open spec fn ints(s: Seq<usize>) -> Seq<int> {
    s.map_values(|x: usize| x as int)
}

/// The timestamp a group's bucket is stamped with.
pub open spec fn group_stamp(ts: Seq<Seq<char>>, target: Timeframe, first: int) -> Option<Seq<char>> {
    bucket_stamp(key_at(ts, first, target).unwrap(), target)
}

/// A span carries the stamp its group's bucket is stamped with.
pub open spec fn stamped(b: BucketSpan, ts: Seq<Seq<char>>, target: Timeframe) -> bool {
    &&& b.members@.len() > 0
    &&& match b.ts {
        Some(s) => group_stamp(ts, target, b.members@[0] as int) == Some(s@),
        None => group_stamp(ts, target, b.members@[0] as int) is None,
    }
}

/// The member groups of finished spans.
pub open spec fn span_groups(out: Seq<BucketSpan>) -> Seq<Seq<int>> {
    out.map_values(|b: BucketSpan| ints(b.members@))
}

proof fn lemma_bucket_start(e: int, m: int)
    requires
        0 <= e < 1440,
        m == 5 || m == 15 || m == 30 || m == 60 || m == 120 || m == 240,
    ensures
        0 <= bucket_end_minute(e, m) - m < 1440,
        bucket_end_minute(e, m) <= 1440 + 240,
{
    let k = (e + m - 1) / m;
    assert(k * m <= e + m - 1 && k >= 0) by (nonlinear_arith)
        requires
            k == (e + m - 1) / m,
            m > 0,
            e >= 0,
    ;
    if k < 1 {
        assert(bucket_end_minute(e, m) == m);
    } else {
        assert(bucket_end_minute(e, m) == k * m);
    }
}

proof fn lemma_key_range(t: (i32, u32, u32, u32, u32, u32), target: Timeframe)
    requires
        t.3 < 24 && t.4 < 60,
    ensures
        bucket_key_of(t, target) matches Some(BucketKey::Minute(_, _, _, s)) ==> 0 <= s < 1440,
{
    if let Some(m) = timeframe_minutes(target) {
        lemma_bucket_start(t.3 as int * 60 + t.4 as int, m as int);
    }
}

fn key_of_bar(s: &String, target: Timeframe) -> (r: Option<((i32, u32, u32, u32, u32, u32), BucketKey)>)
    ensures
        match r {
            Some((t, k)) => chrono_parse_datetime(s@) == Some(t) && bucket_key_of(t, target) == Some(k)
                && (k matches BucketKey::Minute(_, _, _, st) ==> 0 <= st < 1440),
            None => chrono_parse_datetime(s@) matches Some(t) ==> bucket_key_of(t, target) is None,
        },
{
    match parse_datetime(s.as_str()) {
        Some(t) => {
            proof {
                lemma_key_range(t, target);
            }
            match bucket_key(t, target) {
                Some(k) => Some((t, k)),
                None => None,
            }
        },
        None => None,
    }
}

/// Groups a time-ordered 5m series into the bars of `target`: which base bars each
/// derived bar merges, and the derived bar's timestamp. The 5m target keeps every bar
/// as it is; otherwise bars whose time cannot be read are skipped, and a bar opens a new
/// derived bar when its bucket differs from the previous bar's or more than five
/// minutes separate them.
#[verifier::rlimit(40)]
pub fn aggregate_buckets(datetimes: &[String], target: Timeframe) -> (r: Vec<BucketSpan>)
    ensures
        target == Timeframe::M5 ==> {
            &&& r.len() == datetimes.len()
            &&& forall|k: int| 0 <= k < r.len() ==> (#[trigger] r@[k].members@ == seq![k as usize]
                && opt_view(r@[k].ts) == Some(datetimes@[k]@))
        },
        target != Timeframe::M5 ==> {
            &&& span_groups(r@) == groups(views(datetimes@), target, datetimes.len() as int)
            &&& forall|k: int| 0 <= k < r.len() ==> stamped(#[trigger] r@[k], views(datetimes@), target)
        },
{
    let n = datetimes.len();
    let ghost ts = views(datetimes@);
    let mut out: Vec<BucketSpan> = Vec::new();
    if target == Timeframe::M5 {
        let mut i: usize = 0;
        while i < n
            invariant
                i <= n,
                n == datetimes.len(),
                out.len() == i,
                forall|k: int| 0 <= k < i ==> (#[trigger] out@[k].members@ == seq![k as usize]
                    && opt_view(out@[k].ts) == Some(datetimes@[k]@)),
            decreases n - i,
        {
            out.push(BucketSpan { members: vec![i], ts: Some(owned(datetimes[i].as_str())) });
            i = i + 1;
        }
        return out;
    }
    let mut cur: Option<(BucketKey, Vec<usize>)> = None;
    let mut prev: (i32, u32, u32, u32, u32, u32) = (0, 0, 0, 0, 0, 0);
    let mut i: usize = 0;
    while i < n
        invariant
            i <= n,
            n == datetimes.len(),
            ts == views(datetimes@),
            target != Timeframe::M5,
            forall|k: int| 0 <= k < out.len() ==> stamped(#[trigger] out@[k], ts, target),
            match last_readable(ts, target, i as int) {
                None => cur is None && out.len() == 0,
                Some(p) => {
                    &&& cur matches Some((key, mem))
                    &&& mem@.len() > 0
                    &&& key_at(ts, p, target) == Some(key)
                    &&& key_at(ts, mem@[0] as int, target) == Some(key)
                    &&& (key matches BucketKey::Minute(_, _, _, st) ==> 0 <= st < 1440)
                    &&& chrono_parse_datetime(ts[p]) == Some(prev)
                    &&& 0 <= p < i
                },
            },
            groups(ts, target, i as int) == match cur {
                None => span_groups(out@),
                Some((_, mem)) => span_groups(out@).push(ints(mem@)),
            },
        decreases n - i,
    {
        let ghost before = groups(ts, target, i as int);
        assert(ts[i as int] == datetimes@[i as int]@);
        match key_of_bar(&datetimes[i], target) {
            None => {
                assert(!readable(ts, i as int, target));
            },
            Some((t, key)) => {
                assert(readable(ts, i as int, target));
                let gap_break = match seconds_between(t, prev) {
                    Some(s) => s >= 360,
                    None => false,
                };
                let session_break = target.minutes().is_some() && cur.is_some() && gap_break;
                let bucket_break = match &cur {
                    Some((k, _)) => *k != key,
                    None => true,
                };
                if bucket_break || session_break {
                    let old_cur = cur.take();
                    match old_cur {
                        Some((k, mem)) => {
                            let stamp = bucket_ts(k, target);
                            let ghost spans = out@;
                            out.push(BucketSpan { members: mem, ts: stamp });
                            assert(span_groups(out@) =~= span_groups(spans).push(ints(mem@)));
                        },
                        None => {},
                    }
                    let mut m: Vec<usize> = Vec::new();
                    m.push(i);
                    assert(ints(m@) =~= seq![i as int]);
                    cur = Some((key, m));
                } else {
                    let (k, mut mem) = cur.take().unwrap();
                    let ghost old_mem = mem@;
                    mem.push(i);
                    assert(ints(mem@) =~= ints(old_mem).push(i as int));
                    assert(span_groups(out@).push(ints(mem@)) =~= before.update(before.len() - 1, before.last().push(i as int)));
                    cur = Some((k, mem));
                }
                prev = t;
            },
        }
        i = i + 1;
    }
    match cur {
        Some((k, mem)) => {
            let stamp = bucket_ts(k, target);
            let ghost spans = out@;
            out.push(BucketSpan { members: mem, ts: stamp });
            assert(span_groups(out@) =~= span_groups(spans).push(ints(mem@)));
        },
        None => {},
    }
    out
}

} // verus!
