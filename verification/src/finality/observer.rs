//! Decisions of the independent finality observer: which 5m boundaries to observe,
//! how many probe rounds a session takes, and which bar a probe response holds.
use vstd::prelude::*;

use crate::text::{owned, str_eq};

verus! {

/// Observer settings.
#[derive(Debug, Clone)]
pub struct FinalityConfig {
    pub enabled: bool,
    pub sentinels: Vec<String>,
    pub probe_interval_secs: u64,
    pub observe_duration_secs: u64,
    pub stable_required: usize,
}

/// The default sentinel symbols: exchanges, categories, activity levels and night
/// session closes that together cover the known revision behaviours.
pub fn default_sentinels() -> (v: Vec<String>)
    ensures
        v@.len() == 7,
        v@[0]@ == "CJ0"@ && v@[1]@ == "JD0"@ && v@[2]@ == "RB0"@ && v@[3]@ == "MA0"@
            && v@[4]@ == "PB0"@ && v@[5]@ == "AU0"@ && v@[6]@ == "SC0"@,
{
    let mut v: Vec<String> = Vec::new();
    v.push(owned("CJ0"));
    v.push(owned("JD0"));
    v.push(owned("RB0"));
    v.push(owned("MA0"));
    v.push(owned("PB0"));
    v.push(owned("AU0"));
    v.push(owned("SC0"));
    v
}

impl Default for FinalityConfig {
    fn default() -> (c: Self)
        ensures
            c.enabled,
            c.sentinels@.len() == 7,
            c.probe_interval_secs == 5,
            c.observe_duration_secs == 120,
            c.stable_required == 3,
    {
        FinalityConfig {
            enabled: true,
            sentinels: default_sentinels(),
            probe_interval_secs: 5,
            observe_duration_secs: 120,
            stable_required: 3,
        }
    }
}

/// The moment (weekday counted from Monday = 0, and time of day) ends a tradable 5m
/// bar: day sessions 09:05-10:15, 10:35-11:30, 13:35-15:00, night 21:05-23:30 and
/// 00:05-02:30; on Saturday only up to 02:30:00 exactly; never on Sunday.
pub open spec fn trading_boundary(weekday: u32, h: u32, m: u32, s: u32, nano: u32) -> bool {
    if weekday == 5 {
        h < 2 || (h == 2 && (m < 30 || (m == 30 && s == 0 && nano == 0)))
    } else if weekday == 6 {
        false
    } else {
        (h == 9 && m >= 5) || (h == 10 && m <= 15) || (h == 10 && m >= 35) || (h == 11 && m <= 30)
            || (h == 13 && m >= 35) || h == 14 || (h == 15 && m == 0) || (h == 21 && m >= 5) || h
            == 22 || (h == 23 && m <= 30) || (h == 0 && m >= 5) || h == 1 || (h == 2 && m <= 30)
    }
}

/// The trading boundaries, by minute of the day `t = 60 h + m`: Monday to Friday,
/// the day sessions 09:05-10:15, 10:35-11:30 and 13:35-15:00, the night session
/// 21:05-23:30 and the small hours 00:05-02:30; on Saturday only the small hours of
/// Friday's night session, up to 02:30:00 exactly; never on Sunday.
pub proof fn law_trading_boundaries_are_session_minutes(weekday: u32, h: u32, m: u32, s: u32, nano: u32)
    requires
        h < 24,
        m < 60,
    ensures
        weekday < 5 ==> (trading_boundary(weekday, h, m, s, nano) <==> {
            let t = 60 * h + m;
            ||| 545 <= t <= 615
            ||| 635 <= t <= 690
            ||| 815 <= t <= 900
            ||| 1265 <= t <= 1410
            ||| 5 <= t <= 150
        }),
        weekday == 5 ==> (trading_boundary(weekday, h, m, s, nano) <==> (60 * h + m < 150 || (60 * h + m == 150
            && s == 0 && nano == 0))),
        weekday == 6 ==> !trading_boundary(weekday, h, m, s, nano),
{
}

/// Whether a local moment is a valid 5m trading boundary (see `trading_boundary`).
pub fn is_valid_5m_trading_boundary(weekday: u32, hour: u32, minute: u32, second: u32, nano: u32) -> (b: bool)
    ensures
        b == trading_boundary(weekday, hour, minute, second, nano),
{
    if weekday == 5 {
        return hour < 2 || (hour == 2 && (minute < 30 || (minute == 30 && second == 0 && nano == 0)));
    }
    if weekday == 6 {
        return false;
    }
    let (h, m) = (hour, minute);
    if (h == 9 && m >= 5) || (h == 10 && m <= 15) {
        return true;
    }
    if (h == 10 && m >= 35) || (h == 11 && m <= 30) {
        return true;
    }
    if (h == 13 && m >= 35) || h == 14 || (h == 15 && m == 0) {
        return true;
    }
    if (h == 21 && m >= 5) || h == 22 || (h == 23 && m <= 30) {
        return true;
    }
    if (h == 0 && m >= 5) || h == 1 || (h == 2 && m <= 30) {
        return true;
    }
    false
}

/// Probe rounds in one observation session: one at T+0 and one per interval up to the
/// observation duration. The round count is taken as an `i32` (so a quotient beyond
/// `i32` wraps), then one is added.
pub fn total_probes(observe_duration_secs: u64, probe_interval_secs: u64) -> (n: i32)
    requires
        probe_interval_secs > 0,
        ((observe_duration_secs / probe_interval_secs) as i32) < i32::MAX,
    ensures
        n == ((observe_duration_secs / probe_interval_secs) as i32) + 1,
        observe_duration_secs / probe_interval_secs < i32::MAX ==> n == observe_duration_secs
            / probe_interval_secs + 1,
{
    (observe_duration_secs / probe_interval_secs) as i32 + 1
}

/// The position of the last bar stamped `bar_ts` in a probe response.
pub fn find_probed_bar(datetimes: &[String], bar_ts: &str) -> (r: Option<usize>)
    ensures
        r matches Some(i) ==> i < datetimes@.len() && datetimes@[i as int]@ == bar_ts@ && forall|j: int|
            i < j < datetimes@.len() ==> datetimes@[j]@ != bar_ts@,
        r is None ==> forall|j: int| 0 <= j < datetimes@.len() ==> datetimes@[j]@ != bar_ts@,
{
    let mut i: usize = datetimes.len();
    while i > 0
        invariant
            i <= datetimes@.len(),
            forall|j: int| i <= j < datetimes@.len() ==> datetimes@[j]@ != bar_ts@,
        decreases i,
    {
        if str_eq(datetimes[i - 1].as_str(), bar_ts) {
            return Some(i - 1);
        }
        i -= 1;
    }
    None
}

/// The raw response is kept for the first probe and for every revision.
pub fn keep_raw_response(is_revision: bool, probe_index: i32) -> (b: bool)
    ensures
        b == (is_revision || probe_index == 0),
{
    is_revision || probe_index == 0
}

} // verus!
