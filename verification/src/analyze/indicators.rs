//! Single-bar signals: the expiry of a bare-candle signal and the calendar
//! arithmetic behind it.
use vstd::prelude::*;
use vstd::string::StringSliceAdditionalSpecFns;

use crate::analyze::model::DT;
use crate::num::{fmt_padded, parse_i32, parse_int, zero_pad};
use crate::text::{push_chars, string_from_chars};

verus! {

/// A single-candle reversal shape on the 15m chart: a hammer or a needle.
#[derive(Debug, Clone, Copy, PartialEq, Eq, Structural)]
pub enum BareKind {
    Hammer,
    Needle,
}

/// Days in month `m` of year `y` (Gregorian leap years); months outside 1-12 count 30.
pub open spec fn month_days(y: i32, m: i32) -> i32 {
    if m == 1 || m == 3 || m == 5 || m == 7 || m == 8 || m == 10 || m == 12 {
        31
    } else if m == 4 || m == 6 || m == 9 || m == 11 {
        30
    } else if m == 2 {
        if (y % 4 == 0 && y % 100 != 0) || y % 400 == 0 {
            29
        } else {
            28
        }
    } else {
        30
    }
}

/// Days in a month (see `month_days`).
pub fn days_in_month(y: i32, m: i32) -> (d: i32)
    ensures
        d == month_days(y, m),
{
    match m {
        1 | 3 | 5 | 7 | 8 | 10 | 12 => 31,
        4 | 6 | 9 | 11 => 30,
        2 => if (y % 4 == 0 && y % 100 != 0) || (y % 400 == 0) {
            29
        } else {
            28
        },
        _ => 30,
    }
}

/// The day after `(y, m, d)`: past the month's last day the month turns, past
/// December the year.
pub open spec fn next_day(y: int, m: int, d: int) -> (int, int, int) {
    if d + 1 > month_days(y as i32, m as i32) {
        if m + 1 > 12 {
            (y + 1, 1, 1)
        } else {
            (y, m + 1, 1)
        }
    } else {
        (y, m, d + 1)
    }
}

/// `(y, m, d)` moved `k` days ahead, one day at a time.
pub open spec fn days_ahead(y: int, m: int, d: int, k: nat) -> (int, int, int)
    decreases k,
{
    if k == 0 {
        (y, m, d)
    } else {
        let n = next_day(y, m, d);
        days_ahead(n.0, n.1, n.2, (k - 1) as nat)
    }
}

/// `dt` moved `add` minutes ahead: whole hours of the minute field carry into the hour
/// (when it reaches 60), whole days of the hour field into the date (when it reaches 24).
pub open spec fn add_minutes(dt: DT, add: int) -> DT {
    let min0 = dt.minute + add;
    let carry_h = if min0 >= 60 {
        min0 / 60
    } else {
        0
    };
    let h0 = dt.hour + carry_h;
    let carry_d = if h0 >= 24 {
        h0 / 24
    } else {
        0
    };
    let day = days_ahead(dt.year as int, dt.month as int, dt.day as int, carry_d as nat);
    DT {
        year: day.0 as i32,
        month: day.1 as i32,
        day: day.2 as i32,
        hour: (h0 - 24 * carry_d) as i32,
        minute: (min0 - 60 * carry_h) as i32,
    }
}

proof fn lemma_days_ahead_step(y: int, m: int, d: int, k: nat)
    ensures
        ({
            let a = days_ahead(y, m, d, k);
            let n = next_day(a.0, a.1, a.2);
            days_ahead(y, m, d, k + 1) == n
        }),
    decreases k,
{
    let n = next_day(y, m, d);
    if k > 0 {
        lemma_days_ahead_step(n.0, n.1, n.2, (k - 1) as nat);
        assert(days_ahead(y, m, d, k) == days_ahead(n.0, n.1, n.2, (k - 1) as nat));
        assert(days_ahead(y, m, d, k + 1) == days_ahead(n.0, n.1, n.2, k));
    } else {
        assert(days_ahead(n.0, n.1, n.2, 0) == n);
        assert(days_ahead(y, m, d, 1) == days_ahead(n.0, n.1, n.2, 0));
    }
}

proof fn lemma_days_ahead_bounds(y: int, m: int, d: int, k: nat)
    ensures
        y <= days_ahead(y, m, d, k).0 <= y + k,
        days_ahead(y, m, d, k).1 <= (if m > 12 { m } else { 12 }),
        k > 0 ==> days_ahead(y, m, d, k).2 <= 31,
    decreases k,
{
    if k > 0 {
        let n = next_day(y, m, d);
        assert(month_days(y as i32, m as i32) <= 31);
        lemma_days_ahead_bounds(n.0, n.1, n.2, (k - 1) as nat);
        if k > 1 {
            assert(month_days(n.0 as i32, n.1 as i32) <= 31);
        }
    }
}

/// Moves a calendar minute ahead (see `add_minutes`). The minutes, the carried hours,
/// and, when a day is carried, the day, the month and the year stepped once per
/// carried day must stay in `i32`.
#[verifier::rlimit(40)]
pub fn dt_add_minutes(dt: &DT, add_mins: i32) -> (r: DT)
    requires
        i32::MIN <= dt.minute + add_mins <= i32::MAX,
        dt.minute + add_mins >= 60 ==> dt.hour + (dt.minute + add_mins) / 60 <= i32::MAX,
        ({
            let min0 = dt.minute + add_mins;
            let h0 = dt.hour + if min0 >= 60 { min0 / 60 } else { 0 };
            h0 >= 24 ==> dt.day < i32::MAX && dt.month < i32::MAX && dt.year + h0 / 24 <= i32::MAX
        }),
    ensures
        r == add_minutes(*dt, add_mins as int),
{
    let mut y = dt.year;
    let mut m = dt.month;
    let mut d = dt.day;
    let mut h = dt.hour;
    let mut min = dt.minute + add_mins;
    let ghost min0 = min as int;
    let ghost h0_start = h as int;
    let ghost mut hc: int = 0;
    while min >= 60
        invariant
            min == min0 - 60 * hc,
            h == h0_start + hc,
            h0_start == dt.hour,
            0 <= hc,
            min0 >= 60 ==> h0_start + min0 / 60 <= i32::MAX,
            min0 >= 60 ==> min >= 0,
            min0 < 60 ==> hc == 0,
        decreases min,
    {
        assert(hc + 1 <= min0 / 60) by (nonlinear_arith)
            requires
                min0 == min + 60 * hc,
                min >= 60,
        ;
        min -= 60;
        h += 1;
        proof {
            hc = hc + 1;
        }
    }
    proof {
        if min0 >= 60 {
            assert(min0 / 60 == hc) by (nonlinear_arith)
                requires
                    min0 == min + 60 * hc,
                    0 <= min < 60,
            ;
        }
    }
    let ghost h0 = h as int;
    let ghost mut dc: int = 0;
    proof {
        lemma_days_ahead_bounds(y as int, m as int, d as int, 0);
    }
    while h >= 24
        invariant
            h == h0 - 24 * dc,
            0 <= dc,
            h0 >= 24 ==> h >= 0,
            h0 < 24 ==> dc == 0,
            h0 >= 24 ==> dt.day < i32::MAX && dt.month < i32::MAX && dt.year + h0 / 24 <= i32::MAX,
            (y as int, m as int, d as int) == days_ahead(dt.year as int, dt.month as int, dt.day as int, dc as nat),
            dt.year <= y <= dt.year + dc,
            m <= (if dt.month > 12 { dt.month as int } else { 12 }),
            dc == 0 ==> d == dt.day,
            dc > 0 ==> d <= 31,
        decreases h,
    {
        assert(dc + 1 <= h0 / 24) by (nonlinear_arith)
            requires
                h0 == h + 24 * dc,
                h >= 24,
        ;
        h -= 24;
        d += 1;
        let dim = days_in_month(y, m);
        if d > dim {
            d = 1;
            m += 1;
            if m > 12 {
                m = 1;
                y += 1;
            }
        }
        proof {
            lemma_days_ahead_step(dt.year as int, dt.month as int, dt.day as int, dc as nat);
            lemma_days_ahead_bounds(dt.year as int, dt.month as int, dt.day as int, (dc + 1) as nat);
            dc = dc + 1;
        }
    }
    proof {
        if h0 >= 24 {
            assert(h0 / 24 == dc) by (nonlinear_arith)
                requires
                    h0 == h + 24 * dc,
                    0 <= h < 24,
            ;
        }
    }
    DT { year: y, month: m, day: d, hour: h, minute: min }
}

/// A bar timestamp `YYYY-MM-DD HH:MM:00` for a calendar minute.
pub open spec fn bar_ts_text(dt: DT) -> Seq<char> {
    zero_pad(dt.year as int, 4) + seq!['-'] + zero_pad(dt.month as int, 2) + seq!['-'] + zero_pad(dt.day as int, 2)
        + seq![' '] + zero_pad(dt.hour as int, 2) + seq![':'] + zero_pad(dt.minute as int, 2) + seq![':', '0', '0']
}

/// Formats a bar timestamp (see `bar_ts_text`).
#[verifier::rlimit(30)]
pub fn bar_ts_str(dt: &DT) -> (s: String)
    ensures
        s@ == bar_ts_text(*dt),
{
    let mut v: Vec<char> = Vec::new();
    push_chars(&mut v, fmt_padded(dt.year as i64, 4).as_slice());
    v.push('-');
    push_chars(&mut v, fmt_padded(dt.month as i64, 2).as_slice());
    v.push('-');
    push_chars(&mut v, fmt_padded(dt.day as i64, 2).as_slice());
    v.push(' ');
    push_chars(&mut v, fmt_padded(dt.hour as i64, 2).as_slice());
    v.push(':');
    push_chars(&mut v, fmt_padded(dt.minute as i64, 2).as_slice());
    v.push(':');
    v.push('0');
    v.push('0');
    proof {
        assert(v@ =~= bar_ts_text(*dt));
    }
    string_from_chars(v.as_slice())
}

/// Bytes read one by one as characters (Latin-1): a byte slice that holds an integer
/// is ASCII, so it reads the same as its UTF-8 decoding.
pub open spec fn latin1(b: Seq<u8>) -> Seq<char> {
    b.map_values(|x: u8| (x as u32) as char)
}

/// The `i32` in bytes `lo..hi` of a timestamp, or `default` when they do not read.
pub open spec fn field_or(b: Seq<u8>, lo: int, hi: int, default: i32) -> i32 {
    match parse_int(latin1(b.subrange(lo, hi)), true, i32::MIN as int, i32::MAX as int) {
        Some(v) => v as i32,
        None => default,
    }
}

/// The expiry of a bare-candle signal: 15 minutes after its trigger bar
/// `YYYY-MM-DD HH:MM...` (fields that do not read default to 2000-01-01 00:00);
/// a timestamp shorter than 16 bytes is returned as it is.
pub open spec fn bare_expiry(ts: &str) -> Seq<char> {
    let b = ts.spec_bytes();
    if b.len() < 16 {
        ts@
    } else {
        bar_ts_text(add_minutes(DT {
            year: field_or(b, 0, 4, 2000),
            month: field_or(b, 5, 7, 1),
            day: field_or(b, 8, 10, 1),
            hour: field_or(b, 11, 13, 0),
            minute: field_or(b, 14, 16, 0),
        }, 15))
    }
}

fn field_exec(b: &[u8], lo: usize, hi: usize, default: i32) -> (r: i32)
    requires
        lo <= hi <= b@.len(),
    ensures
        r == field_or(b@, lo as int, hi as int, default),
{
    let mut cs: Vec<char> = Vec::new();
    let mut i: usize = lo;
    while i < hi
        invariant
            lo <= i <= hi <= b@.len(),
            cs@ == latin1(b@.subrange(lo as int, i as int)),
        decreases hi - i,
    {
        cs.push(b[i] as char);
        i += 1;
        assert(cs@ =~= latin1(b@.subrange(lo as int, i as int)));
    }
    match parse_i32(cs.as_slice()) {
        Some(v) => v,
        None => default,
    }
}

/// The expiry timestamp of a bare-candle signal (see `bare_expiry`).
pub fn bare_expire_ts(trigger_ts: &str) -> (s: String)
    ensures
        s@ == bare_expiry(trigger_ts),
{
    let b = trigger_ts.as_bytes();
    if b.len() < 16 {
        return trigger_ts.to_owned();
    }
    let y = field_exec(b, 0, 4, 2000);
    let m = field_exec(b, 5, 7, 1);
    let d = field_exec(b, 8, 10, 1);
    let h = field_exec(b, 11, 13, 0);
    let min = field_exec(b, 14, 16, 0);
    proof {
        lemma_short_field_bounds(b@, 0, 4, 2000);
        lemma_short_field_bounds(b@, 5, 7, 1);
        lemma_short_field_bounds(b@, 8, 10, 1);
        lemma_short_field_bounds(b@, 11, 13, 0);
        lemma_short_field_bounds(b@, 14, 16, 0);
    }
    let dt = DT { year: y, month: m, day: d, hour: h, minute: min };
    let exp = dt_add_minutes(&dt, 15);
    bar_ts_str(&exp)
}

proof fn lemma_digits_small(s: Seq<char>)
    requires
        forall|i: int| 0 <= i < s.len() ==> crate::num::is_digit(s[i]),
    ensures
        0 <= crate::num::digits_value(s) < pow10(s.len()),
    decreases s.len(),
{
    if s.len() > 0 {
        lemma_digits_small(s.drop_last());
    }
}

/// Ten to the power `n`.
pub open spec fn pow10(n: nat) -> int
    decreases n,
{
    if n == 0 {
        1
    } else {
        10 * pow10((n - 1) as nat)
    }
}

proof fn lemma_short_field_bounds(b: Seq<u8>, lo: int, hi: int, default: i32)
    requires
        0 <= lo <= hi <= b.len(),
        hi - lo <= 4,
        -1000 <= default <= 10000,
    ensures
        -10000 <= field_or(b, lo, hi, default) <= 10000,
{
    let s = latin1(b.subrange(lo, hi));
    let neg = s.len() > 0 && s[0] == '-';
    let body = if s.len() > 0 && (s[0] == '+' || neg) {
        s.drop_first()
    } else {
        s
    };
    if crate::num::all_digits(body) {
        lemma_digits_small(body);
        assert(pow10(body.len()) <= 10000) by {
            assert(pow10(0) == 1);
            assert(pow10(1) == 10);
            assert(pow10(2) == 100);
            assert(pow10(3) == 1000);
            assert(pow10(4) == 10000);
        }
    }
}

} // verus!
