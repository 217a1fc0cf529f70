//! Contract rollover on a continuous series: session breaks long enough to be a
//! rollover are candidates, and a candidate is confirmed against the month contracts
//! around it. The price comparisons are done by the caller; this module decides where
//! the candidates are, which month-contract bars face a break, how a contract code
//! reads, and what the evidence amounts to.
use vstd::prelude::*;

use crate::clock::{chrono_parse_datetime, chrono_seconds_between, parse_datetime, seconds_between};
use crate::num::{is_digit, parse_int, parse_int_chars};
use crate::text::{chars_of, owned, seq_eq, slice_to_vec, views};

verus! {

/// Bars further apart than this many minutes are a session break.
pub const SESSION_BREAK_MINUTES: i64 = 5;
/// Only breaks of at least this many minutes can be a rollover (lunch and the
/// mid-morning pause are shorter).
pub const ROLLOVER_BREAK_MIN_MINUTES: i64 = 180;
/// Window of the average true range taken before a break.
pub const ATR_WINDOW: usize = 20;
/// How many hours away from a break a month-contract bar may lie to count for it.
pub const MAX_BREAK_SPAN_HOURS: i64 = 48;

/// A confirmed rollover: `from_contract` hands over to `to_contract` at `ts`.
#[derive(Debug, Clone, PartialEq, Eq)]
pub struct RolloverRecord {
    pub symbol: String,
    pub ts: String,
    pub from_contract: String,
    pub to_contract: String,
    pub confirmed: bool,
}

/// The outcome of checking a candidate against the month contracts.
#[derive(Debug, Clone, PartialEq, Eq)]
pub enum ConfirmResult {
    /// A rollover from the first contract to the second.
    Confirmed(String, String),
    /// The data is there but does not show a rollover.
    NotRollover,
    /// Too little month-contract data to decide; to be retried.
    InsufficientData,
}

/// Bytes of a character in UTF-8.
pub open spec fn utf8_width(c: char) -> int {
    if (c as u32) < 0x80 {
        1
    } else if (c as u32) < 0x800 {
        2
    } else if (c as u32) < 0x10000 {
        3
    } else {
        4
    }
}

/// Bytes of a text in UTF-8.
pub open spec fn utf8_len(s: Seq<char>) -> int
    decreases s.len(),
{
    if s.len() == 0 {
        0
    } else {
        utf8_len(s.drop_last()) + utf8_width(s.last())
    }
}

/// Where the first ASCII digit of `s` stands (its length when there is none).
pub open spec fn first_digit(s: Seq<char>) -> int
    decreases s.len(),
{
    if s.len() == 0 {
        0
    } else if is_digit(s[0]) {
        0
    } else {
        1 + first_digit(s.drop_first())
    }
}

/// `s` from its first ASCII digit on (empty when it has none).
pub open spec fn digit_tail(s: Seq<char>) -> Seq<char> {
    s.subrange(first_digit(s), s.len() as int)
}

/// An ASCII letter.
pub open spec fn is_ascii_letter(c: char) -> bool {
    ('A' <= c && c <= 'Z') || ('a' <= c && c <= 'z')
}

/// A month contract code: one or more ASCII letters followed by exactly four ASCII
/// digits, the year and the month (`BU2609`).
pub open spec fn month_contract(code: Seq<char>) -> bool {
    &&& code.len() >= 5
    &&& forall|i: int| 0 <= i < code.len() - 4 ==> is_ascii_letter(#[trigger] code[i])
    &&& forall|i: int| code.len() - 4 <= i < code.len() ==> is_digit(#[trigger] code[i])
}

proof fn lemma_first_digit(s: Seq<char>)
    ensures
        0 <= first_digit(s) <= s.len(),
        first_digit(s) < s.len() ==> is_digit(s[first_digit(s)]),
        forall|j: int| 0 <= j < first_digit(s) ==> !is_digit(#[trigger] s[j]),
    decreases s.len(),
{
    if s.len() > 0 && !is_digit(s[0]) {
        lemma_first_digit(s.drop_first());
        assert forall|j: int| 0 <= j < first_digit(s) implies !is_digit(#[trigger] s[j]) by {
            if j > 0 {
                assert(s[j] == s.drop_first()[j - 1]);
            }
        }
    }
}

pub proof fn lemma_utf8_len_push(s: Seq<char>, c: char)
    ensures
        utf8_len(s.push(c)) == utf8_len(s) + utf8_width(c),
{
    assert(s.push(c).drop_last() =~= s);
}

proof fn lemma_utf8_len_mono(s: Seq<char>, k: int)
    requires
        0 <= k <= s.len(),
    ensures
        utf8_len(s.subrange(0, k)) <= utf8_len(s),
        utf8_len(s.subrange(0, k)) >= k,
        utf8_len(s) >= s.len(),
    decreases s.len() - k,
{
    lemma_utf8_len_ge(s.subrange(0, k));
    if k < s.len() {
        lemma_utf8_len_mono(s, k + 1);
        assert(s.subrange(0, k + 1).drop_last() =~= s.subrange(0, k));
    } else {
        assert(s.subrange(0, k) =~= s);
        lemma_utf8_len_ge(s);
    }
}

pub proof fn lemma_utf8_len_ge(s: Seq<char>)
    ensures
        utf8_len(s) >= s.len(),
    decreases s.len(),
{
    if s.len() > 0 {
        lemma_utf8_len_ge(s.drop_last());
    }
}

fn char_width(c: char) -> (w: usize)
    ensures
        w == utf8_width(c),
{
    let u = c as u32;
    if u < 0x80 {
        1
    } else if u < 0x800 {
        2
    } else if u < 0x10000 {
        3
    } else {
        4
    }
}

/// The first ASCII digit of `s`, as a position.
fn first_digit_pos(s: &[char]) -> (p: usize)
    ensures
        p == first_digit(s@),
        p <= s.len(),
{
    proof {
        lemma_first_digit(s@);
    }
    let mut i: usize = 0;
    while i < s.len()
        invariant
            i <= s.len(),
            i <= first_digit(s@),
            forall|j: int| 0 <= j < first_digit(s@) ==> !is_digit(#[trigger] s@[j]),
            first_digit(s@) <= s@.len(),
            first_digit(s@) < s@.len() ==> is_digit(s@[first_digit(s@)]),
        decreases s.len() - i,
    {
        if '0' <= s[i] && s[i] <= '9' {
            return i;
        }
        i = i + 1;
    }
    i
}

/// Whether the UTF-8 length of `s` is exactly `n`.
fn utf8_len_is(s: &[char], n: usize) -> (r: bool)
    requires
        n <= 4,
    ensures
        r == (utf8_len(s@) == n),
{
    let mut total: usize = 0;
    let mut i: usize = 0;
    while i < s.len()
        invariant
            i <= s.len(),
            total == utf8_len(s@.subrange(0, i as int)),
            total <= n,
            n <= 4,
        decreases s.len() - i,
    {
        proof {
            lemma_utf8_len_push(s@.subrange(0, i as int), s@[i as int]);
            assert(s@.subrange(0, i as int).push(s@[i as int]) =~= s@.subrange(0, i as int + 1));
        }
        total = total + char_width(s[i]);
        if total > n {
            proof {
                lemma_utf8_len_mono(s@, i as int + 1);
            }
            return false;
        }
        i = i + 1;
    }
    proof {
        assert(s@.subrange(0, s@.len() as int) =~= s@);
    }
    total == n
}

/// Whether a contract code names a month contract (`BU2609`, see `month_contract`).
pub fn is_month_contract(code: &str) -> (r: bool)
    ensures
        r == month_contract(code@),
{
    let cs = chars_of(code);
    let n = cs.len();
    if n < 5 {
        return false;
    }
    let mut i: usize = 0;
    while i < n
        invariant
            n == cs@.len() == code@.len() >= 5,
            cs@ == code@,
            i <= n,
            forall|j: int| 0 <= j < i && j < n - 4 ==> is_ascii_letter(#[trigger] cs@[j]),
            forall|j: int| n - 4 <= j < i ==> is_digit(#[trigger] cs@[j]),
        decreases n - i,
    {
        let c = cs[i];
        let ok = if i < n - 4 {
            ('A' <= c && c <= 'Z') || ('a' <= c && c <= 'z')
        } else {
            '0' <= c && c <= '9'
        };
        if !ok {
            return false;
        }
        i += 1;
    }
    true
}

/// A code whose four-byte tail can be cut after its second byte (its second
/// character is ASCII), as reading its month needs.
pub open spec fn month_readable(code: Seq<char>) -> bool {
    let d = digit_tail(code);
    utf8_len(d) == 4 ==> d.len() >= 2 && utf8_width(d[1]) == 1
}

/// Whether a code's month can be read (see `month_readable`).
pub fn month_code_readable(code: &str) -> (r: bool)
    ensures
        r == month_readable(code@),
{
    let cs = chars_of(code);
    let p = first_digit_pos(cs.as_slice());
    let d = slice_to_vec(cs.as_slice(), p, cs.len());
    proof {
        lemma_first_digit(code@);
        assert(d@ =~= digit_tail(code@));
    }
    if !utf8_len_is(d.as_slice(), 4) {
        return true;
    }
    d.len() >= 2 && char_width(d[1]) == 1
}

/// The year-month of a contract code (`BU2609` gives 202609): where the code from its
/// first digit on is four bytes long, 200000 plus the first two of them read as an
/// integer times 100 plus the last two read as an integer (each 0 where it does not
/// read); 0 otherwise.
pub open spec fn contract_month(code: Seq<char>) -> int {
    let d = digit_tail(code);
    if utf8_len(d) != 4 {
        0
    } else {
        let yy = match parse_int(d.subrange(0, 2), true, i64::MIN as int, i64::MAX as int) {
            Some(v) => v,
            None => 0,
        };
        let mm = match parse_int(d.subrange(2, d.len() as int), true, i64::MIN as int, i64::MAX as int) {
            Some(v) => v,
            None => 0,
        };
        200000 + yy * 100 + mm
    }
}

proof fn lemma_small_parse(s: Seq<char>)
    requires
        s.len() <= 2,
    ensures
        parse_int(s, true, i64::MIN as int, i64::MAX as int) matches Some(v) ==> -99 <= v <= 99,
{
    let neg = s.len() > 0 && s[0] == '-';
    let body = if s.len() > 0 && (s[0] == '+' || neg) {
        s.drop_first()
    } else {
        s
    };
    if crate::num::all_digits(body) {
        let b1 = body.drop_last();
        assert(crate::num::is_digit(body.last()));
        if body.len() == 1 {
            assert(b1.len() == 0);
            assert(crate::num::digits_value(b1) == 0);
            assert(crate::num::digits_value(body) == crate::num::digit_val(body.last()));
        } else if body.len() == 2 {
            assert(b1.drop_last().len() == 0);
            assert(b1.last() == body[0]);
            assert(crate::num::is_digit(body[0]));
            assert(crate::num::digits_value(b1.drop_last()) == 0);
            assert(crate::num::digits_value(b1) == crate::num::digit_val(b1.last()));
            assert(crate::num::digits_value(body) == 10 * crate::num::digits_value(b1) + crate::num::digit_val(body.last()));
        }
    }
}

fn read_month(code: &str) -> (m: i64)
    requires
        month_readable(code@),
    ensures
        m == contract_month(code@),
{
    let cs = chars_of(code);
    let p = first_digit_pos(cs.as_slice());
    let d = slice_to_vec(cs.as_slice(), p, cs.len());
    proof {
        lemma_first_digit(code@);
        assert(d@ =~= digit_tail(code@));
    }
    if !utf8_len_is(d.as_slice(), 4) {
        return 0;
    }
    let head = slice_to_vec(d.as_slice(), 0, 2);
    let rest = slice_to_vec(d.as_slice(), 2, d.len());
    proof {
        lemma_utf8_len_mono(d@, 0);
        lemma_small_parse(head@);
        assert(rest@.len() <= 2);
        lemma_small_parse(rest@);
    }
    let yy: i64 = match parse_int_chars(head.as_slice(), true, i64::MIN as i128, i64::MAX as i128) {
        Some(v) => v as i64,
        None => 0,
    };
    let mm: i64 = match parse_int_chars(rest.as_slice(), true, i64::MIN as i128, i64::MAX as i128) {
        Some(v) => v as i64,
        None => 0,
    };
    200000 + yy * 100 + mm
}

/// Calendar fields of a moment: (year, month, day, hour, minute, second).
pub type Moment = (i32, u32, u32, u32, u32, u32);

/// `a` is not later than `b` (calendar fields compare in order).
pub open spec fn moment_le(a: Moment, b: Moment) -> bool {
    ||| a.0 < b.0
    ||| a.0 == b.0 && a.1 < b.1
    ||| a.0 == b.0 && a.1 == b.1 && a.2 < b.2
    ||| a.0 == b.0 && a.1 == b.1 && a.2 == b.2 && a.3 < b.3
    ||| a.0 == b.0 && a.1 == b.1 && a.2 == b.2 && a.3 == b.3 && a.4 < b.4
    ||| a.0 == b.0 && a.1 == b.1 && a.2 == b.2 && a.3 == b.3 && a.4 == b.4 && a.5 <= b.5
}

fn moment_le_exec(a: Moment, b: Moment) -> (r: bool)
    ensures
        r == moment_le(a, b),
{
    if a.0 != b.0 {
        a.0 < b.0
    } else if a.1 != b.1 {
        a.1 < b.1
    } else if a.2 != b.2 {
        a.2 < b.2
    } else if a.3 != b.3 {
        a.3 < b.3
    } else if a.4 != b.4 {
        a.4 < b.4
    } else {
        a.5 <= b.5
    }
}

/// Reads a bar time `YYYY-MM-DD HH:MM:SS` with chrono (see `chrono_parse_datetime`).
pub fn parse_ts(ts: &str) -> (r: Option<Moment>)
    ensures
        r == chrono_parse_datetime(ts@),
{
    parse_datetime(ts)
}

/// Two consecutive bars lie in one session: both read, and fewer than 6 whole
/// minutes (`SESSION_BREAK_MINUTES` + 1) separate them; a distance chrono cannot
/// take counts as one session. `None` when either time does not read.
pub fn same_session(prev: &str, cur: &str) -> (r: Option<bool>)
    ensures
        r == match (chrono_parse_datetime(prev@), chrono_parse_datetime(cur@)) {
            (Some(a), Some(b)) => Some(match chrono_seconds_between(b, a) {
                Some(s) => s < (SESSION_BREAK_MINUTES + 1) * 60,
                None => true,
            }),
            _ => None,
        },
{
    let a = parse_datetime(prev)?;
    let b = parse_datetime(cur)?;
    Some(match seconds_between(b, a) {
        Some(s) => s < (SESSION_BREAK_MINUTES + 1) * 60,
        None => true,
    })
}

/// Bars `i - 1` and `i` both read and lie at least 180 whole minutes apart: a break
/// between a close and an open, where a rollover can happen.
pub open spec fn rollover_break(ts: Seq<Seq<char>>, i: int) -> bool {
    &&& 1 <= i < ts.len()
    &&& chrono_parse_datetime(ts[i - 1]) is Some
    &&& chrono_parse_datetime(ts[i]) is Some
    &&& match chrono_seconds_between(chrono_parse_datetime(ts[i]).unwrap(), chrono_parse_datetime(ts[i - 1]).unwrap()) {
        Some(s) => s >= ROLLOVER_BREAK_MIN_MINUTES * 60,
        None => false,
    }
}

/// The rollover breaks among the first `n` bars, in order.
pub open spec fn rollover_breaks(ts: Seq<Seq<char>>, n: int) -> Seq<int>
    decreases n,
{
    if n <= 0 {
        Seq::empty()
    } else if rollover_break(ts, n - 1) {
        rollover_breaks(ts, n - 1).push(n - 1)
    } else {
        rollover_breaks(ts, n - 1)
    }
}

/// The positions of a time-ordered continuous series where a rollover may have
/// happened: each is the first bar after a break of at least 180 minutes.
pub fn rollover_candidates(datetimes: &[String]) -> (r: Vec<usize>)
    ensures
        r@.map_values(|x: usize| x as int) == rollover_breaks(views(datetimes@), datetimes.len() as int),
{
    let ghost ts = views(datetimes@);
    let mut out: Vec<usize> = Vec::new();
    let mut i: usize = 0;
    while i < datetimes.len()
        invariant
            i <= datetimes.len(),
            ts == views(datetimes@),
            out@.map_values(|x: usize| x as int) == rollover_breaks(ts, i as int),
        decreases datetimes.len() - i,
    {
        let ghost before = out@;
        if i >= 1 {
            assert(ts[i as int] == datetimes@[i as int]@);
            assert(ts[i - 1] == datetimes@[i - 1]@);
            let hit = match (parse_datetime(datetimes[i - 1].as_str()), parse_datetime(datetimes[i].as_str())) {
                (Some(a), Some(b)) => match seconds_between(b, a) {
                    Some(s) => s >= ROLLOVER_BREAK_MIN_MINUTES * 60,
                    None => false,
                },
                _ => false,
            };
            if hit {
                out.push(i);
                assert(out@.map_values(|x: usize| x as int) =~= before.map_values(|x: usize| x as int).push(i as int));
            }
        }
        i = i + 1;
    }
    out
}

/// Bar `j` reads and is later than `t`.
pub open spec fn read_after(rows: Seq<Seq<char>>, j: int, t: Moment) -> bool {
    chrono_parse_datetime(rows[j]) matches Some(d) && !moment_le(d, t)
}

/// Bar `j` reads and is not earlier than `t`.
pub open spec fn read_from(rows: Seq<Seq<char>>, j: int, t: Moment) -> bool {
    chrono_parse_datetime(rows[j]) matches Some(d) && moment_le(t, d)
}

/// The first of the first `n` bars that satisfies `pred`.
pub open spec fn first_where(rows: Seq<Seq<char>>, n: int, pred: spec_fn(int) -> bool) -> Option<int>
    decreases n,
{
    if n <= 0 {
        None
    } else {
        match first_where(rows, n - 1, pred) {
            Some(j) => Some(j),
            None => if pred(n - 1) {
                Some(n - 1)
            } else {
                None
            },
        }
    }
}

/// The last bar before position `n` that reads.
pub open spec fn last_read(rows: Seq<Seq<char>>, n: int) -> Option<int>
    decreases n,
{
    if n <= 0 {
        None
    } else if chrono_parse_datetime(rows[n - 1]) is Some {
        Some(n - 1)
    } else {
        last_read(rows, n - 1)
    }
}

/// Less than 49 hours (48 whole hours at most) lie from `earlier` to `later`.
pub open spec fn within_span(later: Moment, earlier: Moment) -> bool {
    match chrono_seconds_between(later, earlier) {
        Some(s) => s < (MAX_BREAK_SPAN_HOURS + 1) * 3600,
        None => false,
    }
}

/// The month-contract bar that faces a break from before: of the bars that read, the
/// last of the leading run not later than `t`, if it lies within 48 hours of `t`.
pub open spec fn bar_before(rows: Seq<Seq<char>>, t: Moment) -> Option<int> {
    let stop = match first_where(rows, rows.len() as int, |j: int| read_after(rows, j, t)) {
        Some(j) => j,
        None => rows.len() as int,
    };
    match last_read(rows, stop) {
        Some(j) => if within_span(t, chrono_parse_datetime(rows[j]).unwrap()) {
            Some(j)
        } else {
            None
        },
        None => None,
    }
}

/// The month-contract bar that faces a break from after: the first bar that reads and
/// is not earlier than `t`, if it lies within 48 hours of `t`.
pub open spec fn bar_after(rows: Seq<Seq<char>>, t: Moment) -> Option<int> {
    match first_where(rows, rows.len() as int, |j: int| read_from(rows, j, t)) {
        Some(j) => if within_span(chrono_parse_datetime(rows[j]).unwrap(), t) {
            Some(j)
        } else {
            None
        },
        None => None,
    }
}

proof fn lemma_first_where_none(rows: Seq<Seq<char>>, n: int, pred: spec_fn(int) -> bool)
    requires
        0 <= n,
        forall|j: int| 0 <= j < n ==> !#[trigger] pred(j),
    ensures
        first_where(rows, n, pred) is None,
    decreases n,
{
    if n > 0 {
        lemma_first_where_none(rows, n - 1, pred);
    }
}

proof fn lemma_first_where_some(rows: Seq<Seq<char>>, n: int, k: int, pred: spec_fn(int) -> bool)
    requires
        0 <= k < n,
        pred(k),
        forall|j: int| 0 <= j < k ==> !#[trigger] pred(j),
    ensures
        first_where(rows, n, pred) == Some(k),
    decreases n,
{
    if n - 1 > k {
        lemma_first_where_some(rows, n - 1, k, pred);
    } else {
        lemma_first_where_none(rows, k, pred);
    }
}

fn span_ok(later: Moment, earlier: Moment) -> (r: bool)
    ensures
        r == within_span(later, earlier),
{
    match seconds_between(later, earlier) {
        Some(s) => s < (MAX_BREAK_SPAN_HOURS + 1) * 3600,
        None => false,
    }
}

/// The position of the month-contract bar that faces a break at `t` from before (see
/// `bar_before`).
pub fn point_before(rows: &[String], t: Moment) -> (r: Option<usize>)
    ensures
        match r {
            Some(j) => bar_before(views(rows@), t) == Some(j as int),
            None => bar_before(views(rows@), t) is None,
        },
{
    let ghost ts = views(rows@);
    let ghost pred = |j: int| read_after(ts, j, t);
    let mut last: Option<(usize, Moment)> = None;
    let mut i: usize = 0;
    while i < rows.len()
        invariant
            i <= rows.len(),
            ts == views(rows@),
            pred == (|j: int| read_after(ts, j, t)),
            forall|j: int| 0 <= j < i ==> !read_after(ts, j, t),
            match last {
                Some((j, d)) => j < i && last_read(ts, i as int) == Some(j as int) && chrono_parse_datetime(ts[j as int]) == Some(d),
                None => last_read(ts, i as int) is None,
            },
        ensures
            i < rows.len() ==> first_where(ts, ts.len() as int, pred) == Some(i as int),
        decreases rows.len() - i,
    {
        assert(ts[i as int] == rows@[i as int]@);
        match parse_datetime(rows[i].as_str()) {
            Some(d) => {
                if !moment_le_exec(d, t) {
                    proof {
                        lemma_first_where_some(ts, ts.len() as int, i as int, pred);
                    }
                    break;
                }
                last = Some((i, d));
            },
            None => {},
        }
        i = i + 1;
    }
    proof {
        if i == rows.len() {
            lemma_first_where_none(ts, ts.len() as int, pred);
        }
    }
    match last {
        Some((j, d)) => if span_ok(t, d) {
            Some(j)
        } else {
            None
        },
        None => None,
    }
}

/// The position of the month-contract bar that faces a break at `t` from after (see
/// `bar_after`).
pub fn point_after(rows: &[String], t: Moment) -> (r: Option<usize>)
    ensures
        match r {
            Some(j) => bar_after(views(rows@), t) == Some(j as int),
            None => bar_after(views(rows@), t) is None,
        },
{
    let ghost ts = views(rows@);
    let ghost pred = |j: int| read_from(ts, j, t);
    let mut i: usize = 0;
    while i < rows.len()
        invariant
            i <= rows.len(),
            ts == views(rows@),
            pred == (|j: int| read_from(ts, j, t)),
            forall|j: int| 0 <= j < i ==> !read_from(ts, j, t),
        decreases rows.len() - i,
    {
        assert(ts[i as int] == rows@[i as int]@);
        match parse_datetime(rows[i].as_str()) {
            Some(d) => {
                if moment_le_exec(t, d) {
                    proof {
                        lemma_first_where_some(ts, ts.len() as int, i as int, pred);
                    }
                    return if span_ok(d, t) {
                        Some(i)
                    } else {
                        None
                    };
                }
            },
            None => {},
        }
        i = i + 1;
    }
    proof {
        lemma_first_where_none(ts, ts.len() as int, pred);
    }
    None
}

/// The kinds of outcome a candidate can have.
pub enum Verdict {
    Confirm,
    Reject,
    Insufficient,
}

/// The text of an optional string slice.
pub open spec fn opt_str(o: Option<&str>) -> Option<Seq<char>> {
    match o {
        Some(s) => Some(s@),
        None => None,
    }
}

/// What the evidence on a candidate amounts to, step by step: the break's two times
/// must read and at least two month contracts must be known, else the data is
/// insufficient; some contract must face the break from each side, a best-matching old
/// and new contract must exist, the new one must be a later month than the old, and
/// the old contract must not match the bar after the break more closely than the new
/// one; otherwise it is no rollover.
pub open spec fn rollover_verdict(
    times_read: bool,
    contracts: nat,
    old_available: bool,
    new_available: bool,
    best_old: Option<Seq<char>>,
    best_new: Option<Seq<char>>,
    old_closer_after: bool,
) -> Verdict {
    if !times_read || contracts < 2 {
        Verdict::Insufficient
    } else if !old_available || !new_available {
        Verdict::Reject
    } else {
        match (best_old, best_new) {
            (Some(o), Some(n)) => if n == o || contract_month(n) <= contract_month(o) || old_closer_after {
                Verdict::Reject
            } else {
                Verdict::Confirm
            },
            _ => Verdict::Reject,
        }
    }
}

/// Decides a candidate from the evidence that the caller gathered (see
/// `rollover_verdict`); a confirmed rollover names the best old and new contracts.
pub fn decide_rollover(
    times_read: bool,
    contracts: usize,
    old_available: bool,
    new_available: bool,
    best_old: Option<&str>,
    best_new: Option<&str>,
    old_closer_after: bool,
) -> (r: ConfirmResult)
    requires
        best_old matches Some(o) ==> month_readable(o@),
        best_new matches Some(n) ==> month_readable(n@),
    ensures
        ({
            let v = rollover_verdict(
                times_read,
                contracts as nat,
                old_available,
                new_available,
                opt_str(best_old),
                opt_str(best_new),
                old_closer_after,
            );
            match r {
                ConfirmResult::Confirmed(a, b) => v is Confirm && opt_str(best_old) == Some(a@) && opt_str(best_new) == Some(b@),
                ConfirmResult::NotRollover => v is Reject,
                ConfirmResult::InsufficientData => v is Insufficient,
            }
        }),
{
    if !times_read || contracts < 2 {
        return ConfirmResult::InsufficientData;
    }
    if !old_available || !new_available {
        return ConfirmResult::NotRollover;
    }
    match (best_old, best_new) {
        (Some(o), Some(n)) => {
            if str_eq_plain(n, o) || read_month(n) <= read_month(o) || old_closer_after {
                ConfirmResult::NotRollover
            } else {
                ConfirmResult::Confirmed(owned(o), owned(n))
            }
        },
        _ => ConfirmResult::NotRollover,
    }
}

fn str_eq_plain(a: &str, b: &str) -> (r: bool)
    ensures
        r == (a@ == b@),
{
    let x = chars_of(a);
    let y = chars_of(b);
    seq_eq(x.as_slice(), y.as_slice())
}

/// The year of a month contract code: its first two digits (`26` in `BU2609`).
pub open spec fn code_yy(code: Seq<char>) -> int {
    10 * crate::num::digit_val(code[code.len() - 4]) + crate::num::digit_val(code[code.len() - 3])
}

/// The month of a month contract code: its last two digits (`09` in `BU2609`).
pub open spec fn code_mm(code: Seq<char>) -> int {
    10 * crate::num::digit_val(code[code.len() - 2]) + crate::num::digit_val(code[code.len() - 1])
}

proof fn lemma_two_digits(a: Seq<char>)
    requires
        a.len() == 2,
        is_digit(a[0]),
        is_digit(a[1]),
    ensures
        parse_int(a, true, i64::MIN as int, i64::MAX as int) == Some(
            10 * crate::num::digit_val(a[0]) + crate::num::digit_val(a[1]),
        ),
{
    assert(crate::num::all_digits(a));
    let b1 = a.drop_last();
    assert(b1.drop_last().len() == 0);
    assert(b1.last() == a[0]);
    assert(crate::num::digits_value(b1.drop_last()) == 0);
    assert(crate::num::digits_value(b1) == crate::num::digit_val(a[0]));
    assert(crate::num::digits_value(a) == 10 * crate::num::digits_value(b1) + crate::num::digit_val(a[1]));
}

proof fn lemma_month_contract_value(code: Seq<char>)
    requires
        month_contract(code),
    ensures
        contract_month(code) == 200000 + 100 * code_yy(code) + code_mm(code),
        0 <= code_yy(code) <= 99,
        0 <= code_mm(code) <= 99,
{
    lemma_first_digit(code);
    let n = code.len() as int;
    let fd = first_digit(code);
    if fd > n - 4 {
        assert(is_digit(code[n - 4]));
    }
    if fd < n - 4 {
        assert(is_ascii_letter(code[fd]));
    }
    assert(fd == n - 4);
    let d = digit_tail(code);
    assert(d =~= code.subrange(n - 4, n));
    assert(is_digit(d[0]) && is_digit(d[1]) && is_digit(d[2]) && is_digit(d[3])) by {
        assert(d[0] == code[n - 4] && d[1] == code[n - 3] && d[2] == code[n - 2] && d[3] == code[n - 1]);
    }
    let d3 = d.drop_last();
    let d2 = d3.drop_last();
    let d1 = d2.drop_last();
    assert(d1.len() == 1 && d1.last() == d[0]);
    assert(utf8_len(d1.drop_last()) == 0);
    assert(utf8_len(d1) == utf8_width(d[0]));
    assert(d2.last() == d[1] && d3.last() == d[2] && d.last() == d[3]);
    assert(utf8_len(d2) == utf8_len(d1) + utf8_width(d[1]));
    assert(utf8_len(d3) == utf8_len(d2) + utf8_width(d[2]));
    assert(utf8_len(d) == utf8_len(d3) + utf8_width(d[3]));
    assert(utf8_len(d) == 4);
    let a = d.subrange(0, 2);
    let b = d.subrange(2, d.len() as int);
    lemma_two_digits(a);
    lemma_two_digits(b);
}

/// Contract months order month contract codes (letters, then the year and month as
/// four digits) by year first, then by month; two codes share a contract month
/// exactly when they share year and month.
pub proof fn law_contract_month_orders_year_then_month(a: Seq<char>, b: Seq<char>)
    requires
        month_contract(a),
        month_contract(b),
    ensures
        contract_month(a) < contract_month(b) <==> (code_yy(a) < code_yy(b) || (code_yy(a) == code_yy(b)
            && code_mm(a) < code_mm(b))),
        contract_month(a) == contract_month(b) <==> (code_yy(a) == code_yy(b) && code_mm(a) == code_mm(b)),
{
    lemma_month_contract_value(a);
    lemma_month_contract_value(b);
}

/// With every other piece of evidence for it (times read, two or more month contracts,
/// contracts on both sides of the break, two distinct best matches, the old one not
/// closer after the break), a rollover is confirmed exactly when the new contract is of
/// a later year than the old, or of the same year and a later month.
pub proof fn law_rollover_confirmed_for_later_contract(contracts: nat, old: Seq<char>, new: Seq<char>)
    requires
        month_contract(old),
        month_contract(new),
        contracts >= 2,
        old != new,
    ensures
        rollover_verdict(true, contracts, true, true, Some(old), Some(new), false) is Confirm <==> (code_yy(old)
            < code_yy(new) || (code_yy(old) == code_yy(new) && code_mm(old) < code_mm(new))),
{
    law_contract_month_orders_year_then_month(new, old);
    law_contract_month_orders_year_then_month(old, new);
}

} // verus!
