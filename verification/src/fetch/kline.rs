//! Symbol lists and K-line timestamps from the Sina minute API.
use vstd::prelude::*;

use crate::num::{fmt_padded, parse_i32, parse_int, zero_pad};
use serde_json::Value;
use crate::text::{
    chars_of, next_token, next_token_chars, push_chars, seq_eq, split_chars, split_either,
    starts_with, std_to_uppercase, string_from_chars, strip_either, strip_either_chars, to_uppercase_chars,
    trim, trim_chars, views,
};

verus! {

/// `text` without a leading byte-order mark.
pub open spec fn strip_bom(t: Seq<char>) -> Seq<char> {
    if t.len() > 0 && t[0] == '\u{feff}' {
        t.drop_first()
    } else {
        t
    }
}

/// The symbol a line of a symbol list names, if any: blank lines and lines that
/// start with `#` or `//` name none; otherwise it is the first token, stripped of
/// commas and semicolons at both ends and upper-cased.
pub open spec fn line_symbol(line: Seq<char>) -> Option<Seq<char>> {
    let l = trim(line);
    if l.len() == 0 || starts_with(l, seq!['#']) || starts_with(l, seq!['/', '/']) {
        None
    } else {
        match next_token(l) {
            Some(p) => Some(std_to_uppercase(strip_either(p.0, ',', ';'))),
            None => Some(std_to_uppercase(strip_either(Seq::empty(), ',', ';'))),
        }
    }
}

/// The symbols named by `lines`, in order, keeping the first of repeated ones and
/// leaving out empty ones.
pub open spec fn collect_symbols(lines: Seq<Seq<char>>) -> Seq<Seq<char>>
    decreases lines.len(),
{
    if lines.len() == 0 {
        Seq::empty()
    } else {
        let prev = collect_symbols(lines.drop_last());
        match line_symbol(lines.last()) {
            Some(sym) => if sym.len() > 0 && !prev.contains(sym) {
                prev.push(sym)
            } else {
                prev
            },
            None => prev,
        }
    }
}

/// The symbols listed in a text: one per line (`\n`-separated; the `\r` of a `\r\n`
/// line end is white space and trimmed away).
pub open spec fn listed_symbols(text: Seq<char>) -> Seq<Seq<char>> {
    collect_symbols(split_either(strip_bom(text), '\n', '\n'))
}

fn line_symbol_exec(line: &[char]) -> (r: Option<Vec<char>>)
    ensures
        r matches Some(v) ==> line_symbol(line@) == Some(v@),
        r is None ==> line_symbol(line@) is None,
{
    let l = trim_chars(line);
    let hash = ['#'];
    let slashes = ['/', '/'];
    proof {
        assert(hash@ =~= seq!['#']);
        assert(slashes@ =~= seq!['/', '/']);
    }
    if l.len() == 0 {
        return None;
    }
    let starts_hash = l[0] == '#';
    let starts_slashes = l.len() >= 2 && l[0] == '/' && l[1] == '/';
    proof {
        if l@.len() >= 1 {
            assert(starts_with(l@, seq!['#']) == (l@[0] == '#')) by {
                if l@[0] == '#' {
                    assert(l@.subrange(0, 1) =~= seq!['#']);
                } else {
                    assert(l@.subrange(0, 1)[0] == l@[0]);
                }
            }
        }
        if l@.len() >= 2 {
            assert(starts_with(l@, seq!['/', '/']) == (l@[0] == '/' && l@[1] == '/')) by {
                if l@[0] == '/' && l@[1] == '/' {
                    assert(l@.subrange(0, 2) =~= seq!['/', '/']);
                } else {
                    assert(l@.subrange(0, 2)[0] == l@[0]);
                    assert(l@.subrange(0, 2)[1] == l@[1]);
                }
            }
        } else {
            assert(!starts_with(l@, seq!['/', '/']));
        }
    }
    if starts_hash || starts_slashes {
        return None;
    }
    let token: Vec<char> = match next_token_chars(l.as_slice()) {
        Some(p) => p.0,
        None => {
            let e: Vec<char> = Vec::new();
            assert(e@ =~= Seq::<char>::empty());
            e
        },
    };
    let stripped = strip_either_chars(token.as_slice(), ',', ';');
    Some(to_uppercase_chars(stripped.as_slice()))
}

fn contains_seq(list: &Vec<Vec<char>>, x: &[char]) -> (r: bool)
    ensures
        r == list@.map_values(|v: Vec<char>| v@).contains(x@),
{
    let ghost vs = list@.map_values(|v: Vec<char>| v@);
    let mut i: usize = 0;
    while i < list.len()
        invariant
            i <= list@.len(),
            vs == list@.map_values(|v: Vec<char>| v@),
            forall|j: int| 0 <= j < i ==> vs[j] != x@,
        decreases list@.len() - i,
    {
        if seq_eq(list[i].as_slice(), x) {
            assert(vs[i as int] == x@);
            return true;
        }
        i += 1;
    }
    false
}

/// Reads a symbol list: one symbol per line, `#` and `//` comment lines and blank
/// lines skipped, only the first token of a line read, commas and semicolons around
/// it dropped, upper-cased, each symbol kept once in order of first appearance.
#[verifier::rlimit(40)]
pub fn parse_symbol_list(text: &str) -> (out: Vec<String>)
    ensures
        views(out@) == listed_symbols(text@),
{
    let all = chars_of(text);
    let body: Vec<char> = if all.len() > 0 && all[0] == '\u{feff}' {
        crate::text::slice_to_vec(all.as_slice(), 1, all.len())
    } else {
        all
    };
    proof {
        if text@.len() > 0 && text@[0] == '\u{feff}' {
            assert(body@ =~= text@.drop_first());
        }
    }
    let lines = split_chars(body.as_slice(), '\n', '\n');
    let ghost ls = split_either(strip_bom(text@), '\n', '\n');
    let mut syms: Vec<Vec<char>> = Vec::new();
    let mut k: usize = 0;
    while k < lines.len()
        invariant
            k <= lines@.len(),
            lines@.len() == ls.len(),
            forall|j: int| 0 <= j < lines@.len() ==> #[trigger] lines@[j]@ == ls[j],
            syms@.map_values(|v: Vec<char>| v@) == collect_symbols(ls.subrange(0, k as int)),
        decreases lines@.len() - k,
    {
        let ghost prev = syms@.map_values(|v: Vec<char>| v@);
        proof {
            let sub = ls.subrange(0, k + 1);
            assert(sub.drop_last() =~= ls.subrange(0, k as int));
            assert(sub.last() == ls[k as int]);
        }
        match line_symbol_exec(lines[k].as_slice()) {
            Some(sym) => {
                if sym.len() > 0 && !contains_seq(&syms, sym.as_slice()) {
                    syms.push(sym);
                    assert(syms@.map_values(|v: Vec<char>| v@) =~= prev.push(sym@));
                }
            },
            None => {},
        }
        k += 1;
    }
    proof {
        assert(ls.subrange(0, lines@.len() as int) =~= ls);
    }
    let mut out: Vec<String> = Vec::new();
    let mut j: usize = 0;
    while j < syms.len()
        invariant
            j <= syms@.len(),
            out@.len() == j,
            forall|x: int| 0 <= x < j ==> #[trigger] out@[x]@ == syms@[x]@,
        decreases syms@.len() - j,
    {
        out.push(string_from_chars(syms[j].as_slice()));
        j += 1;
    }
    proof {
        assert(views(out@) =~= syms@.map_values(|v: Vec<char>| v@));
    }
    out
}

proof fn lemma_collect_distinct(lines: Seq<Seq<char>>)
    ensures
        collect_symbols(lines).no_duplicates(),
        forall|k: int| 0 <= k < collect_symbols(lines).len() ==> #[trigger] collect_symbols(lines)[k].len() > 0,
    decreases lines.len(),
{
    if lines.len() > 0 {
        lemma_collect_distinct(lines.drop_last());
        let prev = collect_symbols(lines.drop_last());
        match line_symbol(lines.last()) {
            Some(sym) => {
                if sym.len() > 0 && !prev.contains(sym) {
                    let next = prev.push(sym);
                    assert forall|a: int, b: int| 0 <= a < next.len() && 0 <= b < next.len() && a != b implies next[a] != next[b] by {
                        if a == prev.len() as int {
                            assert(prev[b] == next[b]);
                        } else if b == prev.len() as int {
                            assert(prev[a] == next[a]);
                        }
                    }
                }
            },
            None => {},
        }
    }
}

/// A symbol list never names a symbol twice, nor an empty one.
pub proof fn law_symbol_list_distinct(text: Seq<char>)
    ensures
        listed_symbols(text).no_duplicates(),
        forall|k: int| 0 <= k < listed_symbols(text).len() ==> #[trigger] listed_symbols(text)[k].len() > 0,
{
    lemma_collect_distinct(split_either(strip_bom(text), '\n', '\n'));
}

/// Why a K-line timestamp could not be read.
#[derive(Debug, Clone, Copy, PartialEq, Eq, Structural)]
pub enum DatetimeError {
    /// No date token at all.
    MissingDate,
    /// The date has fewer than three parts.
    InvalidDate,
    InvalidYear,
    InvalidMonth,
    InvalidDay,
    /// The time has no minute part.
    InvalidTime,
    InvalidHour,
    InvalidMinute,
    InvalidSecond,
}

/// An `i32` as read by `str::parse`.
pub open spec fn read_i32(s: Seq<char>) -> Option<int> {
    parse_int(s, true, i32::MIN as int, i32::MAX as int)
}

/// The text of a K-line timestamp in `%04d-%02d-%02d %02d:%02d:%02d` form: the first
/// token is the date (year, month, day separated by `-` or `/`; further parts are
/// ignored), the second token, if any, the time (`hour:minute[:second]`, default
/// `00:00:00`, second default `0`); every number reads as an `i32`.
pub open spec fn normalized_datetime(raw: Seq<char>) -> Result<Seq<char>, DatetimeError> {
    match next_token(raw) {
        None => Err(DatetimeError::MissingDate),
        Some(dr) => {
            let date = dr.0;
            let time = match next_token(dr.1) {
                Some(tr) => tr.0,
                None => seq!['0', '0', ':', '0', '0', ':', '0', '0'],
            };
            let dp = split_either(date, '-', '/');
            let tp = split_either(time, ':', ':');
            match read_i32(dp[0]) {
                None => Err(DatetimeError::InvalidYear),
                Some(y) => if dp.len() < 2 {
                    Err(DatetimeError::InvalidDate)
                } else {
                    match read_i32(dp[1]) {
                        None => Err(DatetimeError::InvalidMonth),
                        Some(mo) => if dp.len() < 3 {
                            Err(DatetimeError::InvalidDate)
                        } else {
                            match read_i32(dp[2]) {
                                None => Err(DatetimeError::InvalidDay),
                                Some(d) => match read_i32(tp[0]) {
                                    None => Err(DatetimeError::InvalidHour),
                                    Some(h) => if tp.len() < 2 {
                                        Err(DatetimeError::InvalidTime)
                                    } else {
                                        match read_i32(tp[1]) {
                                            None => Err(DatetimeError::InvalidMinute),
                                            Some(mi) => match read_i32(
                                                if tp.len() < 3 {
                                                    seq!['0']
                                                } else {
                                                    tp[2]
                                                },
                                            ) {
                                                None => Err(DatetimeError::InvalidSecond),
                                                Some(sec) => Ok(zero_pad(y, 4) + seq!['-'] + zero_pad(mo, 2) + seq!['-']
                                                    + zero_pad(d, 2) + seq![' '] + zero_pad(h, 2) + seq![':']
                                                    + zero_pad(mi, 2) + seq![':'] + zero_pad(sec, 2)),
                                            },
                                        }
                                    },
                                },
                            }
                        },
                    }
                },
            }
        },
    }
}

/// `YYYY-MM-DD HH:MM:SS` from its six numbers, each zero-padded.
fn datetime_chars(y: i32, mo: i32, d: i32, h: i32, mi: i32, sec: i32) -> (out: Vec<char>)
    ensures
        out@ == zero_pad(y as int, 4) + seq!['-'] + zero_pad(mo as int, 2) + seq!['-']
            + zero_pad(d as int, 2) + seq![' '] + zero_pad(h as int, 2) + seq![':']
            + zero_pad(mi as int, 2) + seq![':'] + zero_pad(sec as int, 2),
{
    let mut out: Vec<char> = Vec::new();
    let f = fmt_padded(y as i64, 4);
    push_chars(&mut out, f.as_slice());
    out.push('-');
    let f = fmt_padded(mo as i64, 2);
    push_chars(&mut out, f.as_slice());
    out.push('-');
    let f = fmt_padded(d as i64, 2);
    push_chars(&mut out, f.as_slice());
    out.push(' ');
    let f = fmt_padded(h as i64, 2);
    push_chars(&mut out, f.as_slice());
    out.push(':');
    let f = fmt_padded(mi as i64, 2);
    push_chars(&mut out, f.as_slice());
    out.push(':');
    let f = fmt_padded(sec as i64, 2);
    push_chars(&mut out, f.as_slice());
    proof {
        assert(out@ =~= zero_pad(y as int, 4) + seq!['-'] + zero_pad(mo as int, 2) + seq!['-']
            + zero_pad(d as int, 2) + seq![' '] + zero_pad(h as int, 2) + seq![':']
            + zero_pad(mi as int, 2) + seq![':'] + zero_pad(sec as int, 2));
    }
    out
}

/// Normalises a K-line timestamp to `YYYY-MM-DD HH:MM:SS` (see `normalized_datetime`).
#[verifier::rlimit(40)]
pub fn normalize_datetime(raw: &str) -> (r: Result<String, DatetimeError>)
    ensures
        match (r, normalized_datetime(raw@)) {
            (Ok(s), Ok(t)) => s@ == t,
            (Err(e), Err(f)) => e == f,
            _ => false,
        },
{
    let all = chars_of(raw);
    let (date, rest) = match next_token_chars(all.as_slice()) {
        Some(p) => p,
        None => return Err(DatetimeError::MissingDate),
    };
    let time: Vec<char> = match next_token_chars(rest.as_slice()) {
        Some(p) => p.0,
        None => {
            let z = vec!['0', '0', ':', '0', '0', ':', '0', '0'];
            assert(z@ =~= seq!['0', '0', ':', '0', '0', ':', '0', '0']);
            z
        },
    };
    let dp = split_chars(date.as_slice(), '-', '/');
    let tp = split_chars(time.as_slice(), ':', ':');
    proof {
        crate::text::lemma_split_nonempty(date@, '-', '/');
        crate::text::lemma_split_nonempty(time@, ':', ':');
    }
    let y = match parse_i32(dp[0].as_slice()) {
        Some(v) => v,
        None => return Err(DatetimeError::InvalidYear),
    };
    if dp.len() < 2 {
        return Err(DatetimeError::InvalidDate);
    }
    let mo = match parse_i32(dp[1].as_slice()) {
        Some(v) => v,
        None => return Err(DatetimeError::InvalidMonth),
    };
    if dp.len() < 3 {
        return Err(DatetimeError::InvalidDate);
    }
    let d = match parse_i32(dp[2].as_slice()) {
        Some(v) => v,
        None => return Err(DatetimeError::InvalidDay),
    };
    let h = match parse_i32(tp[0].as_slice()) {
        Some(v) => v,
        None => return Err(DatetimeError::InvalidHour),
    };
    if tp.len() < 2 {
        return Err(DatetimeError::InvalidTime);
    }
    let mi = match parse_i32(tp[1].as_slice()) {
        Some(v) => v,
        None => return Err(DatetimeError::InvalidMinute),
    };
    let zero = vec!['0'];
    assert(zero@ =~= seq!['0']);
    let sec_text: &[char] = if tp.len() < 3 {
        zero.as_slice()
    } else {
        tp[2].as_slice()
    };
    let sec = match parse_i32(sec_text) {
        Some(v) => v,
        None => return Err(DatetimeError::InvalidSecond),
    };
    let out = datetime_chars(y, mo, d, h, mi, sec);
    Ok(string_from_chars(out.as_slice()))
}

/// Text order, as `String`'s `<`: character by character, a proper prefix first.
pub open spec fn text_lt(a: Seq<char>, b: Seq<char>) -> bool
    decreases a.len(),
{
    if a.len() == 0 {
        b.len() > 0
    } else if b.len() == 0 {
        false
    } else if a[0] != b[0] {
        (a[0] as int) < (b[0] as int)
    } else {
        text_lt(a.drop_first(), b.drop_first())
    }
}

pub proof fn lemma_text_lt_irrefl(a: Seq<char>)
    ensures
        !text_lt(a, a),
    decreases a.len(),
{
    if a.len() > 0 {
        lemma_text_lt_irrefl(a.drop_first());
    }
}

pub proof fn lemma_text_lt_trans(a: Seq<char>, b: Seq<char>, c: Seq<char>)
    requires
        text_lt(a, b),
        text_lt(b, c),
    ensures
        text_lt(a, c),
    decreases a.len(),
{
    if a.len() > 0 && b.len() > 0 && c.len() > 0 && a[0] == b[0] && b[0] == c[0] {
        lemma_text_lt_trans(a.drop_first(), b.drop_first(), c.drop_first());
    }
}

pub proof fn lemma_text_lt_total(a: Seq<char>, b: Seq<char>)
    ensures
        a == b || text_lt(a, b) || text_lt(b, a),
    decreases a.len(),
{
    if a.len() > 0 && b.len() > 0 && a[0] == b[0] {
        lemma_text_lt_total(a.drop_first(), b.drop_first());
        if a.drop_first() == b.drop_first() {
            assert(a =~= seq![a[0]] + a.drop_first());
            assert(b =~= seq![b[0]] + b.drop_first());
        }
    } else if a.len() == 0 && b.len() == 0 {
        assert(a =~= b);
    }
}

pub proof fn lemma_text_lt_asym(a: Seq<char>, b: Seq<char>)
    requires
        text_lt(a, b),
    ensures
        !text_lt(b, a),
{
    if text_lt(b, a) {
        lemma_text_lt_trans(a, b, a);
        lemma_text_lt_irrefl(a);
    }
}

pub fn text_lt_exec(a: &[char], b: &[char]) -> (r: bool)
    ensures
        r == text_lt(a@, b@),
{
    let mut i: usize = 0;
    proof {
        assert(a@.subrange(0, a@.len() as int) =~= a@);
        assert(b@.subrange(0, b@.len() as int) =~= b@);
    }
    while i < a.len() && i < b.len() && a[i] == b[i]
        invariant
            i <= a@.len() && i <= b@.len(),
            text_lt(a@, b@) == text_lt(a@.subrange(i as int, a@.len() as int), b@.subrange(i as int, b@.len() as int)),
        decreases a.len() - i,
    {
        proof {
            let x = a@.subrange(i as int, a@.len() as int);
            let y = b@.subrange(i as int, b@.len() as int);
            assert(x.drop_first() =~= a@.subrange(i as int + 1, a@.len() as int));
            assert(y.drop_first() =~= b@.subrange(i as int + 1, b@.len() as int));
        }
        i += 1;
    }
    proof {
        if i < a.len() && i < b.len() {
            let x = a@.subrange(i as int, a@.len() as int);
            let y = b@.subrange(i as int, b@.len() as int);
            assert(x[0] == a@[i as int] && y[0] == b@[i as int]);
        }
    }
    if i == a.len() {
        i < b.len()
    } else if i == b.len() {
        false
    } else {
        a[i] < b[i]
    }
}

/// Row `i` is the first with its timestamp.
pub open spec fn first_of_kind(ts: Seq<Seq<char>>, i: int) -> bool {
    forall|j: int| 0 <= j < i ==> ts[j] != ts[i]
}

/// Row `i`'s timestamp is among the kept rows' timestamps.
pub open spec fn kept(ts: Seq<Seq<char>>, r: Seq<int>, i: int) -> bool {
    exists|k: int| 0 <= k < r.len() && ts[r[k]] == ts[i]
}

/// Row `i`'s timestamp is among those of the chosen positions `d`.
pub open spec fn chosen_in(ts: Seq<Seq<char>>, d: Seq<usize>, i: int) -> bool {
    exists|k: int| 0 <= k < d.len() && ts[d[k] as int] == ts[i]
}

/// The rows kept of a series (by position): one per distinct timestamp (the first
/// row with it), in increasing timestamp order, the latest `count` of them.
pub open spec fn latest_kept(ts: Seq<Seq<char>>, count: nat, r: Seq<int>) -> bool {
    &&& r.len() <= count
    &&& forall|k: int| 0 <= k < r.len() ==> 0 <= #[trigger] r[k] < ts.len() && first_of_kind(ts, r[k])
    &&& forall|k1: int, k2: int| 0 <= k1 < k2 < r.len() ==> text_lt(ts[#[trigger] r[k1]], ts[#[trigger] r[k2]])
    &&& forall|i: int| 0 <= i < ts.len() ==> kept(ts, r, i) || (r.len() == count && (count == 0 || text_lt(ts[i], ts[r[0]])))
}

/// The rows to keep of a series in any order (see `latest_kept`): sorted by
/// timestamp, duplicates dropped (the first row of a timestamp stays), the latest
/// `count` kept. The result lists their positions.
#[verifier::rlimit(40)]
pub fn latest_rows(datetimes: &[String], count: usize) -> (r: Vec<usize>)
    ensures
        latest_kept(views(datetimes@), count as nat, r@.map_values(|x: usize| x as int)),
{
    let ghost ts = views(datetimes@);
    let n = datetimes.len();
    let mut texts: Vec<Vec<char>> = Vec::new();
    let mut t: usize = 0;
    while t < n
        invariant
            t <= n == datetimes.len(),
            ts == views(datetimes@),
            texts@.len() == t,
            forall|j: int| 0 <= j < t ==> #[trigger] texts@[j]@ == ts[j],
        decreases n - t,
    {
        texts.push(chars_of(datetimes[t].as_str()));
        t += 1;
    }
    // Chosen positions, latest first.
    let mut d: Vec<usize> = Vec::new();
    while d.len() < count
        invariant
            n == datetimes.len() == ts.len() == texts@.len(),
            forall|j: int| 0 <= j < n ==> #[trigger] texts@[j]@ == ts[j],
            d@.len() <= count,
            forall|k: int| 0 <= k < d@.len() ==> (#[trigger] d@[k]) < n && first_of_kind(ts, d@[k] as int),
            forall|k1: int, k2: int| 0 <= k1 < k2 < d@.len() ==> text_lt(ts[#[trigger] d@[k2] as int], ts[#[trigger] d@[k1] as int]),
            d@.len() > 0 ==> forall|i: int| 0 <= i < n ==> #[trigger] chosen_in(ts, d@, i)
                || text_lt(ts[i], ts[d@[d@.len() - 1] as int]),
        ensures
            d@.len() < count ==> forall|i: int| 0 <= i < n ==> #[trigger] chosen_in(ts, d@, i),
            d@.len() <= count,
            forall|k: int| 0 <= k < d@.len() ==> (#[trigger] d@[k]) < n && first_of_kind(ts, d@[k] as int),
            forall|k1: int, k2: int| 0 <= k1 < k2 < d@.len() ==> text_lt(ts[#[trigger] d@[k2] as int], ts[#[trigger] d@[k1] as int]),
            d@.len() > 0 ==> forall|i: int| 0 <= i < n ==> #[trigger] chosen_in(ts, d@, i)
                || text_lt(ts[i], ts[d@[d@.len() - 1] as int]),
        decreases count - d@.len(),
    {
        let has_bound = d.len() > 0;
        let bound: usize = if has_bound { d[d.len() - 1] } else { 0 };
        let ghost below = |i: int| !has_bound || text_lt(ts[i], ts[bound as int]);
        let mut best: Option<usize> = None;
        let mut i: usize = 0;
        while i < n
            invariant
                n == ts.len() == texts@.len(),
                forall|j: int| 0 <= j < n ==> #[trigger] texts@[j]@ == ts[j],
                i <= n,
                has_bound ==> bound < n,
                below == (|i: int| !has_bound || text_lt(ts[i], ts[bound as int])),
                match best {
                    None => forall|j: int| 0 <= j < i ==> !#[trigger] below(j),
                    Some(b) => b < i && below(b as int) && forall|j: int| 0 <= j < i && #[trigger] below(j) ==> !text_lt(ts[b as int], ts[j])
                        && (ts[j] == ts[b as int] ==> b <= j),
                },
            decreases n - i,
        {
            let cand = !has_bound || text_lt_exec(texts[i].as_slice(), texts[bound].as_slice());
            if cand {
                let better = match best {
                    None => true,
                    Some(b) => text_lt_exec(texts[b].as_slice(), texts[i].as_slice()),
                };
                if better {
                    proof {
                        if let Some(b) = best {
                            assert forall|j: int| 0 <= j < i + 1 && #[trigger] below(j) implies !text_lt(ts[i as int], ts[j])
                                && (ts[j] == ts[i as int] ==> i <= j) by {
                                if j < i {
                                    lemma_text_lt_total(ts[b as int], ts[j]);
                                    if text_lt(ts[i as int], ts[j]) {
                                        if ts[j] == ts[b as int] {
                                        } else {
                                            lemma_text_lt_trans(ts[i as int], ts[j], ts[b as int]);
                                        }
                                        lemma_text_lt_asym(ts[b as int], ts[i as int]);
                                    }
                                    if ts[j] == ts[i as int] {
                                        lemma_text_lt_irrefl(ts[b as int]);
                                        lemma_text_lt_asym(ts[b as int], ts[i as int]);
                                    }
                                } else {
                                    lemma_text_lt_irrefl(ts[j]);
                                }
                            }
                        } else {
                            assert forall|j: int| 0 <= j < i + 1 && #[trigger] below(j) implies !text_lt(ts[i as int], ts[j])
                                && (ts[j] == ts[i as int] ==> i <= j) by {
                                lemma_text_lt_irrefl(ts[j]);
                            }
                        }
                    }
                    best = Some(i);
                } else {
                    proof {
                        let b = best.unwrap();
                        assert forall|j: int| 0 <= j < i + 1 && #[trigger] below(j) implies !text_lt(ts[b as int], ts[j])
                            && (ts[j] == ts[b as int] ==> b <= j) by {
                        }
                    }
                }
            }
            i += 1;
        }
        match best {
            None => {
                proof {
                    if has_bound {
                        assert forall|j: int| 0 <= j < n implies #[trigger] chosen_in(ts, d@, j) by {
                            assert(!below(j));
                        }
                    } else {
                        assert(n == 0 || !below(0));
                    }
                }
                break;
            },
            Some(b) => {
                let ghost old_d = d@;
                proof {
                    assert forall|j: int| 0 <= j < b implies ts[j] != ts[b as int] by {
                        if ts[j] == ts[b as int] {
                            assert(below(j));
                        }
                    }
                    assert forall|k: int| 0 <= k < old_d.len() implies text_lt(ts[b as int], ts[old_d[k] as int]) by {
                        if k < old_d.len() - 1 {
                            lemma_text_lt_trans(ts[b as int], ts[bound as int], ts[old_d[k] as int]);
                        }
                    }
                }
                d.push(b);
                proof {
                    assert forall|j: int| 0 <= j < n implies #[trigger] chosen_in(ts, d@, j)
                        || text_lt(ts[j], ts[d@[d@.len() - 1] as int]) by {
                        if old_d.len() > 0 && chosen_in(ts, old_d, j) {
                            let k = choose|k: int| 0 <= k < old_d.len() && ts[old_d[k] as int] == ts[j];
                            assert(d@[k] == old_d[k]);
                        } else {
                            assert(below(j));
                            lemma_text_lt_total(ts[b as int], ts[j]);
                            if ts[b as int] == ts[j] {
                                assert(d@[d@.len() - 1] == b);
                            }
                        }
                    }
                }
            },
        }
    }
    // Reverse into increasing order.
    let mut r: Vec<usize> = Vec::new();
    let mut k: usize = d.len();
    while k > 0
        invariant
            k <= d@.len(),
            r@.len() == d@.len() - k,
            forall|q: int| 0 <= q < r@.len() ==> #[trigger] r@[q] == d@[d@.len() - 1 - q],
        decreases k,
    {
        k -= 1;
        r.push(d[k]);
    }
    proof {
        let rv = r@.map_values(|x: usize| x as int);
        assert forall|k1: int, k2: int| 0 <= k1 < k2 < rv.len() implies text_lt(ts[#[trigger] rv[k1]], ts[#[trigger] rv[k2]]) by {
            assert(rv[k1] == d@[d@.len() - 1 - k1] as int);
            assert(rv[k2] == d@[d@.len() - 1 - k2] as int);
        }
        assert forall|q: int| 0 <= q < rv.len() implies 0 <= #[trigger] rv[q] < ts.len() && first_of_kind(ts, rv[q]) by {
            assert(rv[q] == d@[d@.len() - 1 - q] as int);
        }
        assert forall|i: int| 0 <= i < ts.len() implies kept(ts, rv, i) || (rv.len() == count && (count == 0 || text_lt(ts[i], ts[rv[0]]))) by {
            if chosen_in(ts, d@, i) {
                let k = choose|k: int| 0 <= k < d@.len() && ts[d@[k] as int] == ts[i];
                assert(rv[d@.len() - 1 - k] == d@[k] as int);
            } else if d@.len() > 0 {
                assert(rv[0] == d@[d@.len() - 1] as int);
            }
        }
    }
    r
}

/// A character trimmed off the end of a JSONP payload: `)`, `;` or white space.
pub open spec fn tail_char(c: char) -> bool {
    c == ')' || c == ';' || crate::text::is_ws(c)
}

/// `s` without trailing payload-tail characters.
pub open spec fn strip_tail(s: Seq<char>) -> Seq<char>
    decreases s.len(),
{
    if s.len() > 0 && tail_char(s.last()) {
        strip_tail(s.drop_last())
    } else {
        s
    }
}

/// Where the payload of a JSONP response starts: after the `=` of the first `=(`, or
/// else of the first `=`.
pub open spec fn payload_eq(t: Seq<char>) -> Option<int> {
    match crate::text::find_seq(t, seq!['=', '(']) {
        Some(i) => Some(i),
        None => crate::text::find_char(t, '='),
    }
}

/// The JSON text of a JSONP response: what follows the `=` (see `payload_eq`),
/// trimmed, without one opening `(` (and the white space after it), and without
/// trailing `)`, `;` and white space; `None` for a response without `=`.
pub open spec fn jsonp_json(t: Seq<char>) -> Option<Seq<char>> {
    match payload_eq(t) {
        None => None,
        Some(eq) => {
            let j = trim(t.subrange(eq + 1, t.len() as int));
            let j2 = if j.len() > 0 && j[0] == '(' {
                trim(j.drop_first())
            } else {
                j
            };
            Some(crate::text::trim_end(strip_tail(j2)))
        },
    }
}

proof fn lemma_strip_tail_skip(s: Seq<char>, k: int)
    requires
        0 <= k <= s.len(),
        forall|j: int| k <= j < s.len() ==> tail_char(s[j]),
    ensures
        strip_tail(s) == strip_tail(s.subrange(0, k)),
    decreases s.len() - k,
{
    if k < s.len() {
        let t = s.drop_last();
        lemma_strip_tail_skip(t, k);
        assert(t.subrange(0, k) =~= s.subrange(0, k));
    } else {
        assert(s.subrange(0, k) =~= s);
    }
}

fn strip_tail_chars(s: &[char]) -> (out: Vec<char>)
    ensures
        out@ == strip_tail(s@),
{
    let mut k: usize = s.len();
    while k > 0 && (s[k - 1] == ')' || s[k - 1] == ';' || crate::text::char_is_ws(s[k - 1]))
        invariant
            k <= s@.len(),
            forall|j: int| k <= j < s@.len() ==> tail_char(s@[j]),
        decreases k,
    {
        k -= 1;
    }
    proof {
        lemma_strip_tail_skip(s@, k as int);
    }
    crate::text::slice_to_vec(s, 0, k)
}

/// The JSON text of a JSONP response (see `jsonp_json`).
pub fn jsonp_payload(text: &str) -> (r: Option<String>)
    ensures
        match r {
            Some(j) => jsonp_json(text@) == Some(j@),
            None => jsonp_json(text@) is None,
        },
{
    let t = chars_of(text);
    let pat = vec!['=', '('];
    assert(pat@ =~= seq!['=', '(']);
    let eq = match crate::text::find(t.as_slice(), pat.as_slice()) {
        Some(i) => i,
        None => match crate::text::find_char_idx(t.as_slice(), '=') {
            Some(i) => i,
            None => return None,
        },
    };
    proof {
        if crate::text::find_seq(text@, seq!['=', '(']) is Some {
            assert(crate::text::occurs_at(text@, seq!['=', '('], eq as int));
        }
    }
    assert(eq < t.len());
    let rest = crate::text::slice_to_vec(t.as_slice(), eq + 1, t.len());
    let j = trim_chars(rest.as_slice());
    let j2 = if j.len() > 0 && j[0] == '(' {
        let d = crate::text::slice_to_vec(j.as_slice(), 1, j.len());
        assert(d@ =~= j@.drop_first());
        trim_chars(d.as_slice())
    } else {
        j
    };
    let s1 = strip_tail_chars(j2.as_slice());
    let s2 = crate::text::trim_end_chars(s1.as_slice());
    Some(string_from_chars(s2.as_slice()))
}

/// One row of the K-line array, as read from JSON: an object with its keys and, per
/// key, the text when the value is a JSON string; an array with, per element, the text
/// when it is a JSON string; or anything else.
#[derive(Debug, Clone)]
pub enum JsonRow {
    Object(Vec<(String, Option<String>)>),
    Array(Vec<Option<String>>),
    Other,
}

/// Why a row does not read.
#[derive(Debug, Clone, Copy, PartialEq, Eq, Structural)]
pub enum RowError {
    /// An object lacks the text field with this key (by its position in `d o h l c v p`).
    MissingField(usize),
    /// An array has fewer than seven elements.
    TooFewFields(usize),
    /// The array element at this position is not text.
    NotText(usize),
    /// Neither an object nor an array.
    UnexpectedRow,
}

/// The keys of an object row, in field order: time, open, high, low, close, volume,
/// open interest.
pub open spec fn row_keys() -> Seq<Seq<char>> {
    seq!["d"@, "o"@, "h"@, "l"@, "c"@, "v"@, "p"@]
}

/// The text under `key` in an object row (the first entry with that key).
pub open spec fn object_text(entries: Seq<(Seq<char>, Option<Seq<char>>)>, key: Seq<char>) -> Option<Seq<char>>
    decreases entries.len(),
{
    if entries.len() == 0 {
        None
    } else if entries[0].0 == key {
        entries[0].1
    } else {
        object_text(entries.drop_first(), key)
    }
}

/// The first of the seven keys whose text is missing, from position `k` on.
pub open spec fn first_missing(entries: Seq<(Seq<char>, Option<Seq<char>>)>, k: int) -> Option<int>
    decreases 7 - k,
{
    if k >= 7 {
        None
    } else if object_text(entries, row_keys()[k]) is None {
        Some(k)
    } else {
        first_missing(entries, k + 1)
    }
}

/// The first of the first seven elements that is not text, from position `k` on.
pub open spec fn first_not_text(items: Seq<Option<Seq<char>>>, k: int) -> Option<int>
    decreases 7 - k,
{
    if k >= 7 {
        None
    } else if items[k] is None {
        Some(k)
    } else {
        first_not_text(items, k + 1)
    }
}

/// The text of an object row's entries.
pub open spec fn entry_views(e: Seq<(String, Option<String>)>) -> Seq<(Seq<char>, Option<Seq<char>>)> {
    e.map_values(|p: (String, Option<String>)| (p.0@, crate::text::opt_view(p.1)))
}

/// The text of an array row's elements.
pub open spec fn item_views(e: Seq<Option<String>>) -> Seq<Option<Seq<char>>> {
    e.map_values(|x: Option<String>| crate::text::opt_view(x))
}

/// A row as plain values: a kind (0 an object, 1 an array, 2 anything else), the
/// object's entries and the array's elements.
pub type RowView = (u8, Seq<(Seq<char>, Option<Seq<char>>)>, Seq<Option<Seq<char>>>);

/// The plain values of a row.
pub open spec fn row_view(row: JsonRow) -> RowView {
    match row {
        JsonRow::Object(e) => (0u8, entry_views(e@), Seq::empty()),
        JsonRow::Array(items) => (1u8, Seq::empty(), item_views(items@)),
        JsonRow::Other => (2u8, Seq::empty(), Seq::empty()),
    }
}

/// The seven field texts of a row (time, open, high, low, close, volume, open
/// interest), or why it does not read: an object needs each key with a text value (the
/// first missing one is named); an array at least seven elements, the first seven text
/// (the first that is not is named).
pub open spec fn view_texts(v: RowView) -> Result<Seq<Seq<char>>, RowError> {
    if v.0 == 0 {
        let ev = v.1;
        match first_missing(ev, 0) {
            Some(k) => Err(RowError::MissingField(k as usize)),
            None => Ok(Seq::new(7, |k: int| object_text(ev, row_keys()[k]).unwrap())),
        }
    } else if v.0 == 1 {
        let iv = v.2;
        if iv.len() < 7 {
            Err(RowError::TooFewFields(iv.len() as usize))
        } else {
            match first_not_text(iv, 0) {
                Some(k) => Err(RowError::NotText(k as usize)),
                None => Ok(Seq::new(7, |k: int| iv[k].unwrap())),
            }
        }
    } else {
        Err(RowError::UnexpectedRow)
    }
}

/// An object row gives its fields in the order time `d`, open `o`, high `h`, low `l`,
/// close `c`, volume `v`, open interest `p`, each the text under its key; the first key
/// in that order without a text is the one named missing. An array row with seven or
/// more elements gives its first seven in order, the first that is not text named.
pub proof fn law_row_field_order(v: RowView)
    ensures
        ({
            let e = v.1;
            let (d, o, h, l, c, vol, p) = (
                object_text(e, "d"@),
                object_text(e, "o"@),
                object_text(e, "h"@),
                object_text(e, "l"@),
                object_text(e, "c"@),
                object_text(e, "v"@),
                object_text(e, "p"@),
            );
            v.0 == 0 ==> view_texts(v) == if d is None {
                Err(RowError::MissingField(0))
            } else if o is None {
                Err(RowError::MissingField(1))
            } else if h is None {
                Err(RowError::MissingField(2))
            } else if l is None {
                Err(RowError::MissingField(3))
            } else if c is None {
                Err(RowError::MissingField(4))
            } else if vol is None {
                Err(RowError::MissingField(5))
            } else if p is None {
                Err(RowError::MissingField(6))
            } else {
                Ok(seq![d.unwrap(), o.unwrap(), h.unwrap(), l.unwrap(), c.unwrap(), vol.unwrap(), p.unwrap()])
            }
        }),
        ({
            let a = v.2;
            v.0 == 1 && a.len() >= 7 && (forall|k: int| 0 <= k < 7 ==> a[k] is Some) ==> view_texts(v) == Ok::<
                Seq<Seq<char>>,
                RowError,
            >(seq![a[0].unwrap(), a[1].unwrap(), a[2].unwrap(), a[3].unwrap(), a[4].unwrap(), a[5].unwrap(), a[6].unwrap()])
        }),
        v.0 == 1 && v.2.len() < 7 ==> view_texts(v) == Err::<Seq<Seq<char>>, RowError>(RowError::TooFewFields(v.2.len() as usize)),
        v.0 == 1 && v.2.len() >= 7 && v.2[2] is None && v.2[0] is Some && v.2[1] is Some ==> view_texts(v) == Err::<
            Seq<Seq<char>>,
            RowError,
        >(RowError::NotText(2)),
        v.0 != 0 && v.0 != 1 ==> view_texts(v) == Err::<Seq<Seq<char>>, RowError>(RowError::UnexpectedRow),
{
    reveal_with_fuel(first_missing, 8);
    reveal_with_fuel(first_not_text, 8);
    let e = v.1;
    if v.0 == 0 && first_missing(e, 0) is None {
        let want = seq![
            object_text(e, "d"@).unwrap(),
            object_text(e, "o"@).unwrap(),
            object_text(e, "h"@).unwrap(),
            object_text(e, "l"@).unwrap(),
            object_text(e, "c"@).unwrap(),
            object_text(e, "v"@).unwrap(),
            object_text(e, "p"@).unwrap()
        ];
        assert(Seq::new(7, |k: int| object_text(e, row_keys()[k]).unwrap()) =~= want);
    }
    let a = v.2;
    if v.0 == 1 && a.len() >= 7 && (forall|k: int| 0 <= k < 7 ==> a[k] is Some) {
        assert(a[0] is Some && a[1] is Some && a[2] is Some && a[3] is Some && a[4] is Some && a[5] is Some && a[6] is Some);
        assert(Seq::new(7, |k: int| a[k].unwrap()) =~= seq![a[0].unwrap(), a[1].unwrap(), a[2].unwrap(), a[3].unwrap(), a[4].unwrap(), a[5].unwrap(), a[6].unwrap()]);
    }
}

/// The seven field texts of a row (see `view_texts`).
pub open spec fn row_texts(row: JsonRow) -> Result<Seq<Seq<char>>, RowError> {
    view_texts(row_view(row))
}

pub(crate) fn object_text_exec(entries: &Vec<(String, Option<String>)>, key: &str) -> (r: Option<String>)
    ensures
        crate::text::opt_view(r) == object_text(entry_views(entries@), key@),
{
    let ghost ev = entry_views(entries@);
    let k = chars_of(key);
    let mut i: usize = 0;
    assert(ev.subrange(0, ev.len() as int) =~= ev);
    while i < entries.len()
        invariant
            i <= entries.len(),
            ev == entry_views(entries@),
            k@ == key@,
            object_text(ev, key@) == object_text(ev.subrange(i as int, ev.len() as int), key@),
        decreases entries.len() - i,
    {
        let c = chars_of(entries[i].0.as_str());
        let ghost rest = ev.subrange(i as int, ev.len() as int);
        assert(rest[0] == ev[i as int]);
        if crate::text::seq_eq(c.as_slice(), k.as_slice()) {
            return crate::text::clone_opt(&entries[i].1);
        }
        assert(rest.drop_first() =~= ev.subrange(i as int + 1, ev.len() as int));
        i = i + 1;
    }
    None
}

/// Reads the seven field texts of a row (see `row_texts`).
#[verifier::rlimit(40)]
pub fn row_fields(row: &JsonRow) -> (r: Result<Vec<String>, RowError>)
    ensures
        match (r, row_texts(*row)) {
            (Ok(v), Ok(t)) => views(v@) == t,
            (Err(e), Err(f)) => e == f,
            _ => false,
        },
{
    let keys = ["d", "o", "h", "l", "c", "v", "p"];
    match row {
        JsonRow::Object(e) => {
            let ghost ev = entry_views(e@);
            let mut out: Vec<String> = Vec::new();
            let mut k: usize = 0;
            while k < 7
                invariant
                    k <= 7,
                    ev == entry_views(e@),
                    *row == JsonRow::Object(*e),
                    keys@.len() == 7,
                    forall|q: int| 0 <= q < 7 ==> #[trigger] keys@[q]@ == row_keys()[q],
                    first_missing(ev, 0) == first_missing(ev, k as int),
                    out@.len() == k,
                    forall|q: int| 0 <= q < k ==> object_text(ev, row_keys()[q]) == Some(#[trigger] out@[q]@),
                decreases 7 - k,
            {
                let key = keys[k];
                match object_text_exec(e, key) {
                    Some(t) => {
                        out.push(t);
                    },
                    None => {
                        proof {
                            assert(keys@[k as int]@ == row_keys()[k as int]);
                            assert(object_text(ev, row_keys()[k as int]) is None);
                            assert(first_missing(ev, k as int) == Some(k as int));
                        }
                        return Err(RowError::MissingField(k));
                    },
                }
                k = k + 1;
            }
            proof {
                let t = Seq::new(7, |q: int| object_text(ev, row_keys()[q]).unwrap());
                assert(views(out@) =~= t);
            }
            Ok(out)
        },
        JsonRow::Array(items) => {
            let ghost iv = item_views(items@);
            if items.len() < 7 {
                return Err(RowError::TooFewFields(items.len()));
            }
            let mut out: Vec<String> = Vec::new();
            let mut k: usize = 0;
            while k < 7
                invariant
                    k <= 7 <= items.len(),
                    iv == item_views(items@),
                    *row == JsonRow::Array(*items),
                    first_not_text(iv, 0) == first_not_text(iv, k as int),
                    out@.len() == k,
                    forall|q: int| 0 <= q < k ==> iv[q] == Some(#[trigger] out@[q]@),
                decreases 7 - k,
            {
                assert(iv[k as int] == crate::text::opt_view(items@[k as int]));
                match &items[k] {
                    Some(t) => {
                        out.push(crate::text::owned(t.as_str()));
                    },
                    None => {
                        proof {
                            assert(iv[k as int] is None);
                            assert(first_not_text(iv, k as int) == Some(k as int));
                        }
                        return Err(RowError::NotText(k));
                    },
                }
                k = k + 1;
            }
            proof {
                let t = Seq::new(7, |q: int| iv[q].unwrap());
                assert(views(out@) =~= t);
            }
            Ok(out)
        },
        JsonRow::Other => Err(RowError::UnexpectedRow),
    }
}

/// A JSON document as the readers see it: a top-level array with each element as a
/// row, or a single top-level value as a row.
#[derive(Debug, Clone)]
pub enum JsonDoc {
    Array(Vec<JsonRow>),
    Single(JsonRow),
}

/// A document as plain values: (the top level is an array, its elements as rows, or
/// the one value as the only row).
pub type DocView = (bool, Seq<RowView>);

/// The rows of a JSON text.
pub open spec fn row_views(rows: Seq<JsonRow>) -> Seq<RowView> {
    rows.map_values(|r: JsonRow| row_view(r))
}

/// The plain values of a document.
pub open spec fn doc_view(d: JsonDoc) -> DocView {
    match d {
        JsonDoc::Array(rows) => (true, row_views(rows@)),
        JsonDoc::Single(r) => (false, seq![row_view(r)]),
    }
}

/// What `serde_json::from_str::<serde_json::Value>` reads from a text, as a document
/// (see `doc_view`); `None` where the text is no JSON.
pub uninterp spec fn json_document(text: Seq<char>) -> Option<DocView>;

/// Reads a text with `serde_json::from_str` into `serde_json::Value` and mirrors the
/// value: a top-level array element by element, or the single value; each as an object
/// with its keys and string values, an array with its string elements, or anything
/// else. The contract names the result.
#[verifier::external_body]
pub(crate) fn parse_json_document(text: &str) -> (r: Option<JsonDoc>)
    ensures
        match r {
            None => json_document(text@) is None,
            Some(d) => json_document(text@) == Some(doc_view(d)),
        },
{
    let row = |v: &Value| match v {
        Value::Object(m) => JsonRow::Object(m.iter().map(|(k, x)| (k.clone(), x.as_str().map(str::to_string))).collect()),
        Value::Array(a) => JsonRow::Array(a.iter().map(|x| x.as_str().map(str::to_string)).collect()),
        _ => JsonRow::Other,
    };
    match serde_json::from_str::<Value>(text) {
        Err(_) => None,
        Ok(Value::Array(items)) => Some(JsonDoc::Array(items.iter().map(row).collect())),
        Ok(v) => Some(JsonDoc::Single(row(&v))),
    }
}

/// The rows of a K-line payload: `None` where the text is no JSON, `Some(None)` where
/// the value is no array, else each element as a row (see `json_document`).
pub open spec fn json_kline_items(json: Seq<char>) -> Option<Option<Seq<RowView>>> {
    match json_document(json) {
        None => None,
        Some(d) => if d.0 {
            Some(Some(d.1))
        } else {
            Some(None)
        },
    }
}

/// Why a K-line response does not read.
#[derive(Debug, Clone, Copy, PartialEq, Eq, Structural)]
pub enum JsonpError {
    /// No `=` (see `jsonp_json`).
    NoPayload,
    /// The payload is no JSON.
    BadJson,
    /// The payload is no array.
    NotArray,
}

/// The field texts of each row of a JSONP K-line response, or why a row does not
/// read, in order (see `jsonp_json`, `json_kline_items` and `view_texts`).
pub fn jsonp_rows(text: &str) -> (r: Result<Vec<Result<Vec<String>, RowError>>, JsonpError>)
    ensures
        match jsonp_json(text@) {
            None => r == Err::<Vec<Result<Vec<String>, RowError>>, JsonpError>(JsonpError::NoPayload),
            Some(j) => match json_kline_items(j) {
                None => r == Err::<Vec<Result<Vec<String>, RowError>>, JsonpError>(JsonpError::BadJson),
                Some(None) => r == Err::<Vec<Result<Vec<String>, RowError>>, JsonpError>(JsonpError::NotArray),
                Some(Some(rows)) => r matches Ok(v) && v@.len() == rows.len() && forall|k: int| 0 <= k < rows.len() ==>
                    match (#[trigger] v@[k], view_texts(rows[k])) {
                        (Ok(f), Ok(t)) => views(f@) == t,
                        (Err(e), Err(g)) => e == g,
                        _ => false,
                    },
            },
        },
{
    let json = match jsonp_payload(text) {
        Some(j) => j,
        None => return Err(JsonpError::NoPayload),
    };
    let rows = match parse_json_document(json.as_str()) {
        None => return Err(JsonpError::BadJson),
        Some(JsonDoc::Single(_)) => return Err(JsonpError::NotArray),
        Some(JsonDoc::Array(rows)) => rows,
    };
    let ghost rv = row_views(rows@);
    let mut out: Vec<Result<Vec<String>, RowError>> = Vec::new();
    let mut k: usize = 0;
    while k < rows.len()
        invariant
            k <= rows@.len(),
            rv == row_views(rows@),
            out@.len() == k,
            forall|q: int| 0 <= q < k ==> match (#[trigger] out@[q], view_texts(rv[q])) {
                (Ok(f), Ok(t)) => views(f@) == t,
                (Err(e), Err(g)) => e == g,
                _ => false,
            },
        decreases rows@.len() - k,
    {
        let f = row_fields(&rows[k]);
        assert(rv[k as int] == row_view(rows@[k as int]));
        out.push(f);
        k += 1;
    }
    Ok(out)
}

} // verus!
