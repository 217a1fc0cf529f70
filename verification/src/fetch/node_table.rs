//! The grammar of an entry of Sina's futures node table:
//! `[ 'variety' , 'node' , 'number' ( , 'base' )? ]`, white space allowed around each
//! item, each field one or more characters other than `'`, the number ASCII digits.
//! Entries are read left to right; after an entry the reading goes on behind it, and
//! where no entry starts, one character further.
use vstd::prelude::*;

use crate::num::is_digit;
use crate::text::{char_is_ws, is_ws, slice_to_vec};

verus! {

/// An entry as read: (variety, node, number, base).
pub type NodeEntry = (Seq<char>, Seq<char>, Seq<char>, Option<Seq<char>>);

/// The first position from `i` on that holds no white space (the length if none).
pub open spec fn skip_ws(t: Seq<char>, i: int) -> int
    decreases t.len() - i,
{
    if 0 <= i < t.len() && is_ws(t[i]) {
        skip_ws(t, i + 1)
    } else {
        i
    }
}

/// The first position from `i` on that holds `'` (the length if none).
pub open spec fn quote_end(t: Seq<char>, i: int) -> int
    decreases t.len() - i,
{
    if 0 <= i < t.len() && t[i] != '\'' {
        quote_end(t, i + 1)
    } else {
        i
    }
}

/// `t[i]` is `c`.
pub open spec fn char_at(t: Seq<char>, i: int, c: char) -> bool {
    0 <= i < t.len() && t[i] == c
}

/// A quoted field at `i`: `'`, one or more characters other than `'`, `'`; its text
/// and the position behind it.
pub open spec fn quoted_at(t: Seq<char>, i: int) -> Option<(Seq<char>, int)> {
    if char_at(t, i, '\'') {
        let q = quote_end(t, i + 1);
        if i + 1 < q < t.len() {
            Some((t.subrange(i + 1, q), q + 1))
        } else {
            None
        }
    } else {
        None
    }
}

/// Every character is an ASCII digit.
pub open spec fn all_digits(s: Seq<char>) -> bool {
    forall|k: int| 0 <= k < s.len() ==> is_digit(#[trigger] s[k])
}

/// After the third field (ending before `e3`): the optional base field, then `]`. With
/// a base where `, 'base' ]` follows, else without one where `]` follows. The entry's
/// end and its base.
pub open spec fn entry_tail(t: Seq<char>, e3: int) -> Option<(int, Option<Seq<char>>)> {
    let g = skip_ws(t, e3);
    let with_base = if char_at(t, g, ',') {
        match quoted_at(t, skip_ws(t, g + 1)) {
            Some((b, e4)) => {
                let k = skip_ws(t, e4);
                if char_at(t, k, ']') {
                    Some((k + 1, Some(b)))
                } else {
                    None
                }
            },
            None => None,
        }
    } else {
        None
    };
    match with_base {
        Some(x) => Some(x),
        None => if char_at(t, g, ']') {
            Some((g + 1, None))
        } else {
            None
        },
    }
}

/// The entry that starts at `p`, with the position behind it.
pub open spec fn entry_at(t: Seq<char>, p: int) -> Option<(int, NodeEntry)> {
    if !char_at(t, p, '[') {
        None
    } else {
        match quoted_at(t, skip_ws(t, p + 1)) {
            None => None,
            Some((v, e1)) => {
                let b = skip_ws(t, e1);
                if !char_at(t, b, ',') {
                    None
                } else {
                    match quoted_at(t, skip_ws(t, b + 1)) {
                        None => None,
                        Some((n, e2)) => {
                            let d = skip_ws(t, e2);
                            if !char_at(t, d, ',') {
                                None
                            } else {
                                match quoted_at(t, skip_ws(t, d + 1)) {
                                    None => None,
                                    Some((num, e3)) => if !all_digits(num) {
                                        None
                                    } else {
                                        match entry_tail(t, e3) {
                                            None => None,
                                            Some((end, base)) => Some((end, (v, n, num, base))),
                                        }
                                    },
                                }
                            }
                        },
                    }
                }
            },
        }
    }
}

/// The entries read from position `pos` on.
pub open spec fn entries_from(t: Seq<char>, pos: int) -> Seq<NodeEntry>
    decreases t.len() - pos,
{
    if pos < 0 || pos >= t.len() {
        Seq::empty()
    } else {
        match entry_at(t, pos) {
            Some((end, e)) => if pos < end <= t.len() {
                seq![e] + entries_from(t, end)
            } else {
                Seq::empty()
            },
            None => entries_from(t, pos + 1),
        }
    }
}

fn skip_ws_exec(t: &[char], i: usize) -> (r: usize)
    requires
        i <= t@.len(),
    ensures
        r == skip_ws(t@, i as int),
        i <= r <= t@.len(),
{
    let mut j = i;
    while j < t.len() && char_is_ws(t[j])
        invariant
            i <= j <= t@.len(),
            skip_ws(t@, j as int) == skip_ws(t@, i as int),
        decreases t@.len() - j,
    {
        j += 1;
    }
    j
}

fn quote_end_exec(t: &[char], i: usize) -> (r: usize)
    requires
        i <= t@.len(),
    ensures
        r == quote_end(t@, i as int),
        i <= r <= t@.len(),
{
    let mut j = i;
    while j < t.len() && t[j] != '\''
        invariant
            i <= j <= t@.len(),
            quote_end(t@, j as int) == quote_end(t@, i as int),
        decreases t@.len() - j,
    {
        j += 1;
    }
    j
}

fn quoted_exec(t: &[char], i: usize) -> (r: Option<(Vec<char>, usize)>)
    requires
        i <= t@.len(),
    ensures
        match (r, quoted_at(t@, i as int)) {
            (Some((s, e)), Some((v, f))) => s@ == v && e == f && i < e <= t@.len(),
            (None, None) => true,
            _ => false,
        },
{
    if i < t.len() && t[i] == '\'' {
        let q = quote_end_exec(t, i + 1);
        if i + 1 < q && q < t.len() {
            Some((slice_to_vec(t, i + 1, q), q + 1))
        } else {
            None
        }
    } else {
        None
    }
}

fn digits_exec(s: &[char]) -> (r: bool)
    ensures
        r == all_digits(s@),
{
    let mut k: usize = 0;
    while k < s.len()
        invariant
            k <= s@.len(),
            forall|j: int| 0 <= j < k ==> is_digit(#[trigger] s@[j]),
        decreases s@.len() - k,
    {
        if !('0' <= s[k] && s[k] <= '9') {
            return false;
        }
        k += 1;
    }
    true
}

fn entry_tail_exec(t: &[char], e3: usize) -> (r: Option<(usize, Option<Vec<char>>)>)
    requires
        e3 <= t@.len(),
    ensures
        match (r, entry_tail(t@, e3 as int)) {
            (Some((end, b)), Some((f, c))) => end == f && e3 < end <= t@.len() && match (b, c) {
                (Some(x), Some(y)) => x@ == y,
                (None, None) => true,
                _ => false,
            },
            (None, None) => true,
            _ => false,
        },
{
    let g = skip_ws_exec(t, e3);
    if g < t.len() && t[g] == ',' {
        let h = skip_ws_exec(t, g + 1);
        match quoted_exec(t, h) {
            Some((b, e4)) => {
                let k = skip_ws_exec(t, e4);
                if k < t.len() && t[k] == ']' {
                    return Some((k + 1, Some(b)));
                }
            },
            None => {},
        }
    }
    if g < t.len() && t[g] == ']' {
        Some((g + 1, None))
    } else {
        None
    }
}

/// An entry as read, with its fields owned.
pub type EntryChars = (Vec<char>, Vec<char>, Vec<char>, Option<Vec<char>>);

/// The text of an entry.
pub open spec fn entry_view(e: EntryChars) -> NodeEntry {
    (e.0@, e.1@, e.2@, match e.3 {
        Some(b) => Some(b@),
        None => None,
    })
}

fn entry_exec(t: &[char], p: usize) -> (r: Option<(usize, EntryChars)>)
    requires
        p < t@.len(),
    ensures
        match (r, entry_at(t@, p as int)) {
            (Some((end, e)), Some((f, v))) => end == f && entry_view(e) == v && p < end <= t@.len(),
            (None, None) => true,
            _ => false,
        },
{
    if t[p] != '[' {
        return None;
    }
    let a = skip_ws_exec(t, p + 1);
    let (v, e1) = match quoted_exec(t, a) {
        Some(x) => x,
        None => return None,
    };
    let b = skip_ws_exec(t, e1);
    if !(b < t.len() && t[b] == ',') {
        return None;
    }
    let c = skip_ws_exec(t, b + 1);
    let (n, e2) = match quoted_exec(t, c) {
        Some(x) => x,
        None => return None,
    };
    let d = skip_ws_exec(t, e2);
    if !(d < t.len() && t[d] == ',') {
        return None;
    }
    let f = skip_ws_exec(t, d + 1);
    let (num, e3) = match quoted_exec(t, f) {
        Some(x) => x,
        None => return None,
    };
    if !digits_exec(num.as_slice()) {
        return None;
    }
    match entry_tail_exec(t, e3) {
        Some((end, base)) => Some((end, (v, n, num, base))),
        None => None,
    }
}

/// Reads every entry of `t`, left to right (see `entries_from`).
pub fn read_entries(t: &[char]) -> (r: Vec<EntryChars>)
    ensures
        r@.map_values(|e: EntryChars| entry_view(e)) == entries_from(t@, 0),
{
    let mut out: Vec<EntryChars> = Vec::new();
    let mut pos: usize = 0;
    while pos < t.len()
        invariant
            pos <= t@.len(),
            out@.map_values(|e: EntryChars| entry_view(e)) + entries_from(t@, pos as int) == entries_from(t@, 0),
        decreases t@.len() - pos,
    {
        let ghost before = out@.map_values(|e: EntryChars| entry_view(e));
        match entry_exec(t, pos) {
            Some((end, e)) => {
                let ghost ev = entry_view(e);
                assert(entries_from(t@, pos as int) == seq![ev] + entries_from(t@, end as int));
                out.push(e);
                assert(out@.map_values(|e: EntryChars| entry_view(e)) =~= before.push(ev));
                assert(before.push(ev) + entries_from(t@, end as int) =~= before + (seq![ev] + entries_from(t@, end as int)));
                pos = end;
            },
            None => {
                pos += 1;
            },
        }
    }
    proof {
        assert(out@.map_values(|e: EntryChars| entry_view(e)) + entries_from(t@, pos as int) =~= out@.map_values(|e: EntryChars| entry_view(e)));
    }
    out
}

} // verus!
