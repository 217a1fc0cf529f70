//! The local wall clock in the forms the reports print.
use vstd::prelude::*;

use crate::clock::local_now_fields;
use crate::num::{fmt_padded, zero_pad};
use crate::text::{push_chars, string_from_chars};

verus! {

/// Local (year, month, day, hour, minute) now; a year outside `u16` reads as 0.
pub fn now_parts() -> (r: (u16, u16, u16, u16, u16))
    ensures
        1 <= r.1 <= 12 && 1 <= r.2 <= 31 && r.3 < 24 && r.4 < 60,
{
    let (y, mo, d, h, mi, _s) = local_now_fields();
    let year: u16 = if 0 <= y && y <= 65535 {
        y as u16
    } else {
        0
    };
    (year, mo as u16, d as u16, h as u16, mi as u16)
}

/// Local (year, month, day, hour, minute, second) now.
pub fn now_parts_with_seconds() -> (r: (u16, u16, u16, u16, u16, u16))
    ensures
        1 <= r.1 <= 12 && 1 <= r.2 <= 31 && r.3 < 24 && r.4 < 60 && r.5 < 60,
{
    let (y, mo, d, h, mi, s) = local_now_fields();
    let year: u16 = if 0 <= y && y <= 65535 {
        y as u16
    } else {
        0
    };
    (year, mo as u16, d as u16, h as u16, mi as u16, s as u16)
}

/// `YYYYMMDD_HHMM`.
pub open spec fn minute_stamp(p: (u16, u16, u16, u16, u16)) -> Seq<char> {
    zero_pad(p.0 as int, 4) + zero_pad(p.1 as int, 2) + zero_pad(p.2 as int, 2) + seq!['_'] + zero_pad(p.3 as int, 2)
        + zero_pad(p.4 as int, 2)
}

/// `YYYY-MM-DD HH:MM`.
pub open spec fn display_stamp(p: (u16, u16, u16, u16, u16)) -> Seq<char> {
    zero_pad(p.0 as int, 4) + seq!['-'] + zero_pad(p.1 as int, 2) + seq!['-'] + zero_pad(p.2 as int, 2) + seq![' ']
        + zero_pad(p.3 as int, 2) + seq![':'] + zero_pad(p.4 as int, 2)
}

/// Formats a minute as `YYYYMMDD_HHMM`.
pub fn format_minute_stamp(p: (u16, u16, u16, u16, u16)) -> (s: String)
    ensures
        s@ == minute_stamp(p),
{
    let mut v: Vec<char> = Vec::new();
    push_chars(&mut v, fmt_padded(p.0 as i64, 4).as_slice());
    push_chars(&mut v, fmt_padded(p.1 as i64, 2).as_slice());
    push_chars(&mut v, fmt_padded(p.2 as i64, 2).as_slice());
    v.push('_');
    push_chars(&mut v, fmt_padded(p.3 as i64, 2).as_slice());
    push_chars(&mut v, fmt_padded(p.4 as i64, 2).as_slice());
    assert(v@ =~= minute_stamp(p));
    string_from_chars(v.as_slice())
}

/// Formats a minute as `YYYY-MM-DD HH:MM`.
pub fn format_display_stamp(p: (u16, u16, u16, u16, u16)) -> (s: String)
    ensures
        s@ == display_stamp(p),
{
    let mut v: Vec<char> = Vec::new();
    push_chars(&mut v, fmt_padded(p.0 as i64, 4).as_slice());
    v.push('-');
    push_chars(&mut v, fmt_padded(p.1 as i64, 2).as_slice());
    v.push('-');
    push_chars(&mut v, fmt_padded(p.2 as i64, 2).as_slice());
    v.push(' ');
    push_chars(&mut v, fmt_padded(p.3 as i64, 2).as_slice());
    v.push(':');
    push_chars(&mut v, fmt_padded(p.4 as i64, 2).as_slice());
    assert(v@ =~= display_stamp(p));
    string_from_chars(v.as_slice())
}

/// The local minute now as `YYYYMMDD_HHMM`.
pub fn now_minute() -> (s: String)
    ensures
        exists|p: (u16, u16, u16, u16, u16)| s@ == minute_stamp(p),
{
    let p = now_parts();
    format_minute_stamp(p)
}

/// The local minute now as `YYYY-MM-DD HH:MM`.
pub fn now_display() -> (s: String)
    ensures
        exists|p: (u16, u16, u16, u16, u16)| s@ == display_stamp(p),
{
    let p = now_parts();
    format_display_stamp(p)
}

} // verus!
