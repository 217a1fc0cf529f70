//! CSV bar files: timestamps and the `<symbol>_15m<suffix>.csv` naming.
use vstd::prelude::*;

use crate::analyze::model::DT;
use crate::num::{parse_i32, parse_int};
use crate::text::{
    chars_of, find, find_seq, next_token, next_token_chars, slice_to_vec, split_chars, split_either,
    string_from_chars,
};

verus! {

#[verifier::external_type_specification]
#[verifier::external_body]
pub struct ExPathBuf(std::path::PathBuf);

#[verifier::external_type_specification]
#[verifier::external_body]
pub struct ExPath(std::path::Path);

/// A symbol with its 15m and 60m CSV files.
pub struct CsvPair {
    pub symbol: String,
    pub path15: std::path::PathBuf,
    pub path60: std::path::PathBuf,
}

/// An `i32` as read by `str::parse`.
pub open spec fn read_i32(s: Seq<char>) -> Option<int> {
    parse_int(s, true, i32::MIN as int, i32::MAX as int)
}

/// The time fields of a `HH:MM[:SS...]` token: the first three `:`-separated pieces
/// must read as `i32` (later pieces are ignored); missing ones are 0.
pub open spec fn time_fields(t: Seq<char>) -> Option<(int, int)> {
    let p = split_either(t, ':', ':');
    match read_i32(p[0]) {
        None => None,
        Some(h) => if p.len() < 2 {
            Some((h, 0))
        } else {
            match read_i32(p[1]) {
                None => None,
                Some(m) => if p.len() >= 3 && read_i32(p[2]) is None {
                    None
                } else {
                    Some((h, m))
                },
            }
        },
    }
}

/// A CSV timestamp read as a calendar minute: a date token of exactly three `-` or
/// `/` separated `i32` fields and an optional time token (see `time_fields`).
pub open spec fn csv_dt(s: Seq<char>) -> Option<DT> {
    match next_token(s) {
        None => None,
        Some(dr) => {
            let d = split_either(dr.0, '-', '/');
            if d.len() != 3 {
                None
            } else {
                match (read_i32(d[0]), read_i32(d[1]), read_i32(d[2])) {
                    (Some(y), Some(mo), Some(day)) => {
                        let hm = match next_token(dr.1) {
                            Some(tr) => time_fields(tr.0),
                            None => Some((0, 0)),
                        };
                        match hm {
                            Some(t) => Some(DT { year: y as i32, month: mo as i32, day: day as i32, hour: t.0 as i32, minute: t.1 as i32 }),
                            None => None,
                        }
                    },
                    _ => None,
                }
            }
        },
    }
}

/// Reads a CSV timestamp (see `csv_dt`).
pub fn parse_dt(s: &str) -> (r: Option<DT>)
    ensures
        r == csv_dt(s@),
{
    let all = chars_of(s);
    let (date, rest) = match next_token_chars(all.as_slice()) {
        Some(p) => p,
        None => return None,
    };
    let d = split_chars(date.as_slice(), '-', '/');
    if d.len() != 3 {
        return None;
    }
    let y = match parse_i32(d[0].as_slice()) {
        Some(v) => v,
        None => return None,
    };
    let mo = match parse_i32(d[1].as_slice()) {
        Some(v) => v,
        None => return None,
    };
    let day = match parse_i32(d[2].as_slice()) {
        Some(v) => v,
        None => return None,
    };
    let (h, m) = match next_token_chars(rest.as_slice()) {
        None => (0i32, 0i32),
        Some(tr) => {
            let p = split_chars(tr.0.as_slice(), ':', ':');
            proof {
                crate::text::lemma_split_nonempty(tr.0@, ':', ':');
            }
            let h = match parse_i32(p[0].as_slice()) {
                Some(v) => v,
                None => return None,
            };
            if p.len() < 2 {
                (h, 0i32)
            } else {
                let m = match parse_i32(p[1].as_slice()) {
                    Some(v) => v,
                    None => return None,
                };
                if p.len() >= 3 {
                    match parse_i32(p[2].as_slice()) {
                        Some(_) => {},
                        None => return None,
                    }
                }
                (h, m)
            }
        },
    };
    Some(DT { year: y, month: mo, day, hour: h, minute: m })
}

/// Splits a bar file name `<symbol>_15m<suffix>.csv` (or `_60m`): the symbol, the
/// suffix after the marker, and whether it is the 15m file. The 15m marker is tried
/// first; a marker with nothing before it does not count.
pub open spec fn kline_name_parts(name: Seq<char>) -> Option<(Seq<char>, Seq<char>, bool)> {
    let ext = seq!['.', 'c', 's', 'v'];
    if !crate::text::ends_with(name, ext) {
        None
    } else {
        let stem = name.subrange(0, name.len() - 4);
        let m15 = seq!['_', '1', '5', 'm'];
        let m60 = seq!['_', '6', '0', 'm'];
        match find_seq(stem, m15) {
            Some(p) if p > 0 => Some((stem.subrange(0, p), stem.subrange(p + 4, stem.len() as int), true)),
            _ => match find_seq(stem, m60) {
                Some(p) if p > 0 => Some((stem.subrange(0, p), stem.subrange(p + 4, stem.len() as int), false)),
                _ => None,
            },
        }
    }
}

/// Splits a bar file name (see `kline_name_parts`).
pub fn split_kline_name(name: &str) -> (r: Option<(String, String, bool)>)
    ensures
        r matches Some(t) ==> kline_name_parts(name@) == Some((t.0@, t.1@, t.2)),
        r is None ==> kline_name_parts(name@) is None,
{
    let n = chars_of(name);
    let ext = ['.', 'c', 's', 'v'];
    assert(ext@ =~= seq!['.', 'c', 's', 'v']);
    if n.len() < 4 || !crate::text::matches_at(n.as_slice(), &ext, n.len() - 4) {
        return None;
    }
    let stem = slice_to_vec(n.as_slice(), 0, n.len() - 4);
    let m15 = ['_', '1', '5', 'm'];
    let m60 = ['_', '6', '0', 'm'];
    assert(m15@ =~= seq!['_', '1', '5', 'm']);
    assert(m60@ =~= seq!['_', '6', '0', 'm']);
    match find(stem.as_slice(), &m15) {
        Some(p) => {
            if p > 0 {
                let sym = slice_to_vec(stem.as_slice(), 0, p);
                let suf = slice_to_vec(stem.as_slice(), p + 4, stem.len());
                return Some((string_from_chars(sym.as_slice()), string_from_chars(suf.as_slice()), true));
            }
        },
        None => {},
    }
    match find(stem.as_slice(), &m60) {
        Some(p) => {
            if p > 0 {
                let sym = slice_to_vec(stem.as_slice(), 0, p);
                let suf = slice_to_vec(stem.as_slice(), p + 4, stem.len());
                return Some((string_from_chars(sym.as_slice()), string_from_chars(suf.as_slice()), false));
            }
        },
        None => {},
    }
    None
}

/// The final component of a path as text (`Path::file_name` then `OsStr::to_str`);
/// nothing is claimed of it: it depends on the platform's path rules.
#[verifier::external_body]
fn file_name_text(path: &std::path::Path) -> Option<String> {
    path.file_name().and_then(|s| s.to_str()).map(|s| s.to_string())
}

/// The symbol that a file name gives: the symbol part of `kline_name_parts`, or none.
pub open spec fn name_gives_symbol(name: Seq<char>, sym: Option<Seq<char>>) -> bool {
    match kline_name_parts(name) {
        Some(t) => sym == Some(t.0),
        None => sym is None,
    }
}

proof fn lemma_empty_name_gives_none()
    ensures
        name_gives_symbol(Seq::<char>::empty(), None),
{
    assert(!crate::text::ends_with(Seq::<char>::empty(), seq!['.', 'c', 's', 'v']));
}

/// The symbol of a bar file, from its file name (see `kline_name_parts`): the name
/// that `Path::file_name` gives is handed to `split_kline_name`, whose contract says
/// what comes out for each name. Which name a path has follows the platform's path
/// rules and is not stated, so the contract says what holds of every result.
pub fn infer_symbol(path: &std::path::Path) -> (r: Option<String>)
    ensures
        exists|name: Seq<char>| #[trigger] name_gives_symbol(name, crate::text::opt_view(r)),
{
    let name = match file_name_text(path) {
        Some(n) => n,
        None => {
            proof {
                lemma_empty_name_gives_none();
            }
            return None;
        },
    };
    match split_kline_name(name.as_str()) {
        Some(t) => {
            assert(name_gives_symbol(name@, Some(t.0@)));
            Some(t.0)
        },
        None => {
            assert(name_gives_symbol(name@, None));
            None
        },
    }
}

/// Which of two 15m/60m file pairs is fresher: by the older of each pair's last bar
/// times when all four are known, otherwise by the sum of the files' modification
/// times.
pub fn pair_is_better_by(
    a15: Option<DT>,
    a60: Option<DT>,
    b15: Option<DT>,
    b60: Option<DT>,
    mtimes_a: u128,
    mtimes_b: u128,
) -> (r: bool)
    ensures
        r == match (a15, a60, b15, b60) {
            (Some(x15), Some(x60), Some(y15), Some(y60)) => dt_lt(dt_min(y15, y60), dt_min(x15, x60)),
            _ => mtimes_a > mtimes_b,
        },
{
    match (a15, a60, b15, b60) {
        (Some(x15), Some(x60), Some(y15), Some(y60)) => dt_lt_exec(dt_min_exec(y15, y60), dt_min_exec(x15, x60)),
        _ => mtimes_a > mtimes_b,
    }
}

/// File `a` is newer than `b`: by last bar time when both are known, otherwise by
/// modification time.
pub fn file_is_newer_by(a: Option<DT>, b: Option<DT>, mtime_a: u128, mtime_b: u128) -> (r: bool)
    ensures
        r == match (a, b) {
            (Some(x), Some(y)) => dt_lt(y, x),
            _ => mtime_a > mtime_b,
        },
{
    match (a, b) {
        (Some(x), Some(y)) => dt_lt_exec(y, x),
        _ => mtime_a > mtime_b,
    }
}

/// Chronological (lexicographic by field) order of calendar minutes, as `DT`'s
/// derived `Ord`.
pub open spec fn dt_lt(a: DT, b: DT) -> bool {
    a.year < b.year || (a.year == b.year && (a.month < b.month || (a.month == b.month && (a.day < b.day
        || (a.day == b.day && (a.hour < b.hour || (a.hour == b.hour && a.minute < b.minute)))))))
}

/// The earlier of two calendar minutes.
pub open spec fn dt_min(a: DT, b: DT) -> DT {
    if dt_lt(b, a) {
        b
    } else {
        a
    }
}

pub fn dt_lt_exec(a: DT, b: DT) -> (r: bool)
    ensures
        r == dt_lt(a, b),
{
    a.year < b.year || (a.year == b.year && (a.month < b.month || (a.month == b.month && (a.day < b.day
        || (a.day == b.day && (a.hour < b.hour || (a.hour == b.hour && a.minute < b.minute)))))))
}

pub fn dt_min_exec(a: DT, b: DT) -> (r: DT)
    ensures
        r == dt_min(a, b),
{
    if dt_lt_exec(b, a) {
        b
    } else {
        a
    }
}

} // verus!
