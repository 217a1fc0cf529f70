//! Review grouping keys that do not depend on measured values: the hour of a
//! warning, structure keys, warning-bar distances, and the labels of the categorical
//! grouping dimensions.
use vstd::prelude::*;

use crate::analyze::outcome::ExitReason;
use crate::clock::{chrono_parse_datetime, chrono_parse_minute, chrono_seconds_between, parse_datetime, parse_minute_text, seconds_between};
use crate::num::{fmt_padded, zero_pad};
use crate::text::{owned, push_chars, push_str, string_from_chars};

verus! {

/// The calendar minute a timestamp names: read as `%Y-%m-%d %H:%M:%S`, else as
/// `%Y-%m-%d %H:%M`; (year, month, day, hour, minute).
pub open spec fn minute_of(ts: Seq<char>) -> Option<(i32, i32, i32, i32, i32)> {
    match chrono_parse_datetime(ts) {
        Some(t) => Some((t.0, t.1 as i32, t.2 as i32, t.3 as i32, t.4 as i32)),
        None => match chrono_parse_minute(ts) {
            Some(t) => Some((t.0, t.1 as i32, t.2 as i32, t.3 as i32, t.4 as i32)),
            None => None,
        },
    }
}

/// Reads the calendar minute of a timestamp with or without seconds (see `minute_of`).
pub fn parse_minute(ts: &str) -> (r: Option<(i32, i32, i32, i32, i32)>)
    ensures
        r == minute_of(ts@),
        r matches Some(t) ==> 1 <= t.1 <= 12 && 1 <= t.2 <= 31 && 0 <= t.3 < 24 && 0 <= t.4 < 60,
{
    match parse_datetime(ts) {
        Some(t) => Some((t.0, t.1 as i32, t.2 as i32, t.3 as i32, t.4 as i32)),
        None => match parse_minute_text(ts) {
            Some(t) => Some((t.0, t.1 as i32, t.2 as i32, t.3 as i32, t.4 as i32)),
            None => None,
        },
    }
}

/// The moment of a calendar minute, at second 0.
pub open spec fn at_minute(t: (i32, i32, i32, i32, i32)) -> (i32, u32, u32, u32, u32, u32) {
    (t.0, t.1 as u32, t.2 as u32, t.3 as u32, t.4 as u32, 0)
}

/// How many whole 15-minute bars lie from `earlier` to `later` (0 when `later` is
/// before); `None` where either does not read.
pub open spec fn bars_between(later: Seq<char>, earlier: Seq<char>) -> Option<int> {
    match (minute_of(later), minute_of(earlier)) {
        (Some(a), Some(b)) => match chrono_seconds_between(at_minute(a), at_minute(b)) {
            Some(s) => Some(if s >= 0 { s / 60 / 15 } else { 0 }),
            None => None,
        },
        _ => None,
    }
}

/// The 15m-bar distance between two warning times (see `bars_between`).
pub fn warning_bars_gap_str(later: &str, earlier: &str) -> (r: Option<u64>)
    ensures
        match r {
            Some(n) => bars_between(later@, earlier@) == Some(n as int),
            None => bars_between(later@, earlier@) is None,
        },
{
    let a = match parse_minute(later) {
        Some(a) => a,
        None => return None,
    };
    let b = match parse_minute(earlier) {
        Some(b) => b,
        None => return None,
    };
    match seconds_between(
        (a.0, a.1 as u32, a.2 as u32, a.3 as u32, a.4 as u32, 0),
        (b.0, b.1 as u32, b.2 as u32, b.3 as u32, b.4 as u32, 0),
    ) {
        Some(s) => {
            if s >= 0 {
                let m: i64 = s / 60;
                let q: i64 = m / 15;
                Some(q as u64)
            } else {
                Some(0)
            }
        },
        None => None,
    }
}

/// The hour a row is grouped under: of its warning time when it has a non-empty one,
/// else of its creation time, as `HH:00`; `未知` where it does not read.
pub open spec fn hour_key(warning_ts: Option<Seq<char>>, created_at: Seq<char>) -> Seq<char> {
    let ts = match warning_ts {
        Some(w) => if w.len() > 0 { w } else { created_at },
        None => created_at,
    };
    match minute_of(ts) {
        Some(t) => zero_pad(t.3 as int, 2) + ":00"@,
        None => "未知"@,
    }
}

/// The hour group of a row (see `hour_key`).
pub fn hour_label(warning_ts: Option<&str>, created_at: &str) -> (s: String)
    ensures
        s@ == hour_key(
            match warning_ts {
                Some(w) => Some(w@),
                None => None,
            },
            created_at@,
        ),
{
    let ts = match warning_ts {
        Some(w) => if crate::text::chars_of(w).len() > 0 { w } else { created_at },
        None => created_at,
    };
    match parse_minute(ts) {
        Some(t) => {
            let mut v: Vec<char> = Vec::new();
            let h = fmt_padded(t.3 as i64, 2);
            push_chars(&mut v, h.as_slice());
            push_str(&mut v, ":00");
            string_from_chars(v.as_slice())
        },
        None => owned("未知"),
    }
}

/// The structure key of a signal: symbol, logic version, direction, level and the
/// times of its second and third swing, `|`-separated; without both times the signal
/// id stands in (`id<n>`), so that such a signal is merged with no other.
pub open spec fn structure_text(
    symbol: Seq<char>,
    logic_version: Seq<char>,
    direction: Seq<char>,
    level: Seq<char>,
    s1: Option<Seq<char>>,
    s2: Option<Seq<char>>,
    signal_id: int,
) -> Seq<char> {
    let head = symbol + "|"@ + logic_version + "|"@ + direction + "|"@ + level + "|"@;
    match (s1, s2) {
        (Some(a), Some(b)) => head + a + "|"@ + b,
        _ => head + "id"@ + zero_pad(signal_id, 0),
    }
}

/// The text of an optional string slice.
pub open spec fn opt_text(o: Option<&str>) -> Option<Seq<char>> {
    match o {
        Some(s) => Some(s@),
        None => None,
    }
}

/// The structure key of a signal (see `structure_text`).
pub fn structure_key(
    symbol: &str,
    logic_version: &str,
    direction: &str,
    level: &str,
    s1_ts: Option<&str>,
    s2_ts: Option<&str>,
    signal_id: i64,
) -> (k: String)
    ensures
        k@ == structure_text(symbol@, logic_version@, direction@, level@, opt_text(s1_ts), opt_text(s2_ts), signal_id as int),
{
    let mut v: Vec<char> = Vec::new();
    push_str(&mut v, symbol);
    push_str(&mut v, "|");
    push_str(&mut v, logic_version);
    push_str(&mut v, "|");
    push_str(&mut v, direction);
    push_str(&mut v, "|");
    push_str(&mut v, level);
    push_str(&mut v, "|");
    match (s1_ts, s2_ts) {
        (Some(a), Some(b)) => {
            push_str(&mut v, a);
            push_str(&mut v, "|");
            push_str(&mut v, b);
        },
        _ => {
            push_str(&mut v, "id");
            let d = fmt_padded(signal_id, 0);
            push_chars(&mut v, d.as_slice());
        },
    }
    string_from_chars(v.as_slice())
}

/// The direction group: `做多` for `up`, `做空` otherwise.
pub fn direction_bucket(direction: &str) -> (s: &'static str)
    ensures
        s@ == (if direction@ == "up"@ { "做多"@ } else { "做空"@ }),
{
    if crate::text::str_eq(direction, "up") {
        "做多"
    } else {
        "做空"
    }
}

/// The level group: `精细` for `fine`, `较大` otherwise.
pub fn level_bucket(level: &str) -> (s: &'static str)
    ensures
        s@ == (if level@ == "fine"@ { "精细"@ } else { "较大"@ }),
{
    if crate::text::str_eq(level, "fine") {
        "精细"
    } else {
        "较大"
    }
}

/// The open-interest group.
pub fn oi_bucket(oi_increase: Option<bool>) -> (s: &'static str)
    ensures
        s@ == (match oi_increase {
            Some(true) => "增仓"@,
            Some(false) => "未增仓"@,
            None => "数据缺失"@,
        }),
{
    match oi_increase {
        Some(true) => "增仓",
        Some(false) => "未增仓",
        None => "数据缺失",
    }
}

/// The exit-reason group (`其他` for none).
pub fn exit_bucket(reason: Option<ExitReason>) -> (s: &'static str)
    ensures
        s@ == (match reason {
            Some(ExitReason::Target) => "止盈"@,
            Some(ExitReason::Stop) => "止损"@,
            Some(ExitReason::NoFollow) => "无跟随"@,
            Some(ExitReason::TimeExit) => "时间退出"@,
            Some(ExitReason::Rollover) => "换月"@,
            _ => "其他"@,
        }),
{
    match reason {
        Some(ExitReason::Target) => "止盈",
        Some(ExitReason::Stop) => "止损",
        Some(ExitReason::NoFollow) => "无跟随",
        Some(ExitReason::TimeExit) => "时间退出",
        Some(ExitReason::Rollover) => "换月",
        _ => "其他",
    }
}

/// The trigger-lag group: 1, 2-3, 4-6, 7-12 or more bars.
pub fn trigger_lag_bucket(lag: Option<usize>) -> (s: &'static str)
    ensures
        s@ == (match lag {
            Some(n) => if n == 1 {
                "1"@
            } else if 2 <= n <= 3 {
                "2-3"@
            } else if 4 <= n <= 6 {
                "4-6"@
            } else if 7 <= n <= 12 {
                "7-12"@
            } else {
                ">12"@
            },
            None => "数据缺失"@,
        }),
{
    match lag {
        Some(n) => if n == 1 {
            "1"
        } else if 2 <= n && n <= 3 {
            "2-3"
        } else if 4 <= n && n <= 6 {
            "4-6"
        } else if 7 <= n && n <= 12 {
            "7-12"
        } else {
            ">12"
        },
        None => "数据缺失",
    }
}

/// The target-tier group.
pub fn tp_tier_bucket(tier: Option<&str>) -> (s: &'static str)
    ensures
        s@ == (match opt_text(tier) {
            Some(t) => if t == "tp2"@ {
                "TP2扩展止盈"@
            } else if t == "tp1"@ {
                "TP1止盈"@
            } else {
                "其他"@
            },
            None => "其他"@,
        }),
{
    match tier {
        Some(t) => if crate::text::str_eq(t, "tp2") {
            "TP2扩展止盈"
        } else if crate::text::str_eq(t, "tp1") {
            "TP1止盈"
        } else {
            "其他"
        },
        None => "其他",
    }
}

/// The gap group: whether a gap was crossed on entry and on exit.
pub fn gap_bucket(entry: bool, exit: bool) -> (s: &'static str)
    ensures
        s@ == (if entry && exit {
            "双跳空"@
        } else if entry {
            "入场跳空"@
        } else if exit {
            "出场跳空"@
        } else {
            "无跳空"@
        }),
{
    if entry && exit {
        "双跳空"
    } else if entry {
        "入场跳空"
    } else if exit {
        "出场跳空"
    } else {
        "无跳空"
    }
}

} // verus!
