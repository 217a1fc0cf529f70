//! Realtime quotes from `hq.sinajs.cn/list=`: the request URLs, and the reading of a
//! quote line. Commodity and index futures lay their fields out differently, told apart
//! by the code's prefix:
//! - commodities (RB0, AU0, ...): name, time, open, high, low, previous close, bid, ask,
//!   latest, settlement, previous settlement, ...
//! - index futures (IF0, IH0, IC0, IM0): open, high, low, latest, volume, turnover,
//!   open interest, ..., previous close, previous settlement, ..., name last.
//!
//! The numbers stay text here, checked to read as decimal floating point; the caller
//! converts them and computes the change.
use vstd::prelude::*;

use crate::derive::rollover::{utf8_len, utf8_width};
use crate::num::{is_float_literal, parses_as_float};
use crate::text::{
    chars_of, eq_lit, find_char, find_char_idx, is_ws, char_is_ws, push_str, slice_to_vec,
    split_chars, split_either, string_from_chars, trim, trim_chars, views,
};

verus! {

/// The quote service's list endpoint.
pub open spec fn quote_base() -> Seq<char> {
    "https://hq.sinajs.cn/list="@
}

/// The referer the quote service expects.
pub const HQ_REFERER: &'static str = "https://finance.sina.com.cn";

/// Codes asked for in one request at most.
pub const BATCH_SIZE: usize = 50;

/// The list parameter for a batch: each code as `nf_<code>`, comma-separated.
pub open spec fn joined_codes(codes: Seq<Seq<char>>) -> Seq<char>
    decreases codes.len(),
{
    if codes.len() == 0 {
        Seq::empty()
    } else if codes.len() == 1 {
        "nf_"@ + codes[0]
    } else {
        joined_codes(codes.drop_last()) + ","@ + "nf_"@ + codes.last()
    }
}

/// The request URLs for a list of codes: batches of 50 in order.
pub open spec fn quote_batch_urls(codes: Seq<Seq<char>>) -> Seq<Seq<char>>
    decreases codes.len(),
{
    if codes.len() == 0 {
        Seq::empty()
    } else if codes.len() <= BATCH_SIZE {
        seq![quote_base() + joined_codes(codes)]
    } else {
        seq![quote_base() + joined_codes(codes.subrange(0, BATCH_SIZE as int))]
            + quote_batch_urls(codes.subrange(BATCH_SIZE as int, codes.len() as int))
    }
}

fn batch_url(codes: &[String], lo: usize, hi: usize) -> (r: String)
    requires
        lo < hi <= codes.len(),
    ensures
        r@ == quote_base() + joined_codes(views(codes@).subrange(lo as int, hi as int)),
{
    let mut v: Vec<char> = Vec::new();
    push_str(&mut v, "https://hq.sinajs.cn/list=");
    let ghost all = views(codes@);
    let mut i: usize = lo;
    while i < hi
        invariant
            lo <= i <= hi <= codes.len(),
            all == views(codes@),
            v@ == quote_base() + joined_codes(all.subrange(lo as int, i as int)),
        decreases hi - i,
    {
        proof {
            let next = all.subrange(lo as int, i as int + 1);
            assert(next.drop_last() =~= all.subrange(lo as int, i as int));
            assert(next.last() == codes@[i as int]@);
        }
        if i > lo {
            push_str(&mut v, ",");
        }
        push_str(&mut v, "nf_");
        push_str(&mut v, codes[i].as_str());
        proof {
            let next = all.subrange(lo as int, i as int + 1);
            if i == lo {
                assert(all.subrange(lo as int, i as int).len() == 0);
                assert(joined_codes(all.subrange(lo as int, i as int)) =~= Seq::<char>::empty());
                assert(v@ =~= quote_base() + joined_codes(next));
            } else {
                assert(v@ =~= quote_base() + joined_codes(next));
            }
        }
        i = i + 1;
    }
    string_from_chars(v.as_slice())
}

/// The request URLs for `codes`, 50 codes a batch.
pub fn quote_urls(codes: &[String]) -> (r: Vec<String>)
    ensures
        views(r@) == quote_batch_urls(views(codes@)),
{
    let ghost all = views(codes@);
    let mut out: Vec<String> = Vec::new();
    let mut lo: usize = 0;
    assert(all.subrange(0, all.len() as int) =~= all);
    assert(views(out@) + quote_batch_urls(all) =~= quote_batch_urls(all));
    while lo < codes.len()
        invariant
            lo <= codes.len(),
            all == views(codes@),
            views(out@) + quote_batch_urls(all.subrange(lo as int, all.len() as int)) == quote_batch_urls(all),
        decreases codes.len() - lo,
    {
        let hi = if codes.len() - lo > BATCH_SIZE { lo + BATCH_SIZE } else { codes.len() };
        let url = batch_url(codes, lo, hi);
        proof {
            let rest = all.subrange(lo as int, all.len() as int);
            if rest.len() > BATCH_SIZE {
                assert(rest.subrange(0, BATCH_SIZE as int) =~= all.subrange(lo as int, hi as int));
                assert(rest.subrange(BATCH_SIZE as int, rest.len() as int) =~= all.subrange(hi as int, all.len() as int));
            } else {
                assert(rest =~= all.subrange(lo as int, hi as int));
                assert(all.subrange(hi as int, all.len() as int).len() == 0);
            }
            assert(views(out@.push(url)) =~= views(out@).push(url@));
        }
        out.push(url);
        lo = hi;
    }
    proof {
        assert(all.subrange(all.len() as int, all.len() as int).len() == 0);
        assert(views(out@) + quote_batch_urls(all.subrange(lo as int, all.len() as int)) =~= views(out@));
    }
    out
}

/// The fields of a quote, the numbers as text that reads as a float.
#[derive(Debug, Clone)]
pub struct QuoteFields {
    pub code: String,
    pub name: String,
    pub latest: String,
    pub prev_settle: String,
}

/// A character trimmed off a quote body: a double quote, a semicolon or white space.
pub open spec fn body_trim_char(c: char) -> bool {
    c == '"' || c == ';' || is_ws(c)
}

/// `s` without leading body-trim characters.
pub open spec fn body_trim_start(s: Seq<char>) -> Seq<char>
    decreases s.len(),
{
    if s.len() > 0 && body_trim_char(s[0]) {
        body_trim_start(s.drop_first())
    } else {
        s
    }
}

/// `s` without trailing body-trim characters.
pub open spec fn body_trim_end(s: Seq<char>) -> Seq<char>
    decreases s.len(),
{
    if s.len() > 0 && body_trim_char(s.last()) {
        body_trim_end(s.drop_last())
    } else {
        s
    }
}

/// `s` with body-trim characters removed at both ends.
pub open spec fn body_trim(s: Seq<char>) -> Seq<char> {
    body_trim_end(body_trim_start(s))
}

proof fn lemma_body_start(s: Seq<char>, i: int)
    requires
        0 <= i <= s.len(),
        forall|j: int| 0 <= j < i ==> body_trim_char(s[j]),
    ensures
        body_trim_start(s) == body_trim_start(s.subrange(i, s.len() as int)),
    decreases i,
{
    if i > 0 {
        let t = s.drop_first();
        assert forall|j: int| 0 <= j < i - 1 implies body_trim_char(t[j]) by {
            assert(t[j] == s[j + 1]);
        }
        lemma_body_start(t, i - 1);
        assert(t.subrange(i - 1, t.len() as int) =~= s.subrange(i, s.len() as int));
    } else {
        assert(s.subrange(0, s.len() as int) =~= s);
    }
}

proof fn lemma_body_end(s: Seq<char>, k: int)
    requires
        0 <= k <= s.len(),
        forall|j: int| k <= j < s.len() ==> body_trim_char(s[j]),
    ensures
        body_trim_end(s) == body_trim_end(s.subrange(0, k)),
    decreases s.len() - k,
{
    if k < s.len() {
        let t = s.drop_last();
        lemma_body_end(t, k);
        assert(t.subrange(0, k) =~= s.subrange(0, k));
    } else {
        assert(s.subrange(0, k) =~= s);
    }
}

fn is_body_trim(c: char) -> (r: bool)
    ensures
        r == body_trim_char(c),
{
    c == '"' || c == ';' || char_is_ws(c)
}

fn body_trim_chars(s: &[char]) -> (out: Vec<char>)
    ensures
        out@ == body_trim(s@),
{
    let mut lo: usize = 0;
    while lo < s.len() && is_body_trim(s[lo])
        invariant
            lo <= s@.len(),
            forall|j: int| 0 <= j < lo ==> body_trim_char(s@[j]),
        decreases s@.len() - lo,
    {
        lo += 1;
    }
    proof {
        lemma_body_start(s@, lo as int);
    }
    let t = slice_to_vec(s, lo, s.len());
    let mut hi: usize = t.len();
    while hi > 0 && is_body_trim(t[hi - 1])
        invariant
            hi <= t@.len(),
            forall|j: int| hi <= j < t@.len() ==> body_trim_char(t@[j]),
        decreases hi,
    {
        hi -= 1;
    }
    proof {
        if t@.len() > 0 {
            assert(!body_trim_char(t@[0]));
        }
        assert(body_trim_start(t@) == t@);
        lemma_body_end(t@, hi as int);
    }
    slice_to_vec(t.as_slice(), 0, hi)
}

/// The code a quote line is for: the text before the first `=`, trimmed, from its
/// last `_` on; `None` for a line without `=`.
pub open spec fn line_code(line: Seq<char>) -> Option<Seq<char>> {
    match find_char(line, '=') {
        Some(eq) => Some(split_either(trim(line.subrange(0, eq)), '_', '_').last()),
        None => None,
    }
}

/// The body of a quote line: after the first `=`, trimmed of quotes, semicolons and
/// white space.
pub open spec fn line_body(line: Seq<char>) -> Seq<char> {
    match find_char(line, '=') {
        Some(eq) => body_trim(trim(line.subrange(eq + 1, line.len() as int))),
        None => Seq::empty(),
    }
}

/// The first two bytes of a code can be cut off: the code is at most two bytes long,
/// or its first character takes two bytes, or its first two take one each.
pub open spec fn prefix_cuttable(code: Seq<char>) -> bool {
    ||| utf8_len(code) <= 2
    ||| utf8_width(code[0]) == 2
    ||| code.len() >= 2 && utf8_width(code[0]) == 1 && utf8_width(code[1]) == 1
}

/// An index future: the code starts with `IF`, `IH`, `IC` or `IM`.
pub open spec fn index_code(code: Seq<char>) -> bool {
    code.len() >= 2 && code[0] == 'I' && (code[1] == 'F' || code[1] == 'H' || code[1] == 'C' || code[1] == 'M')
}

/// The quote a body gives for a code: an empty body gives none; an index future needs
/// at least 15 fields (latest 4th, previous settlement 15th, name last); a commodity at
/// least 11 (name 1st, latest 9th, previous settlement 11th); both numbers must read
/// as floats. Result: (name, latest, previous settlement).
pub open spec fn body_quote(code: Seq<char>, body: Seq<char>) -> Option<(Seq<char>, Seq<char>, Seq<char>)> {
    if body.len() == 0 {
        None
    } else {
        let f = split_either(body, ',', ',');
        if index_code(code) {
            if f.len() < 15 || !is_float_literal(f[3]) || !is_float_literal(f[14]) {
                None
            } else {
                Some((f.last(), f[3], f[14]))
            }
        } else {
            if f.len() < 11 || !is_float_literal(f[8]) || !is_float_literal(f[10]) {
                None
            } else {
                Some((f[0], f[8], f[10]))
            }
        }
    }
}

/// The quote a line gives: none without `=`, for an empty code or `hq_str`, or where
/// the body gives none (see `body_quote`).
pub open spec fn line_quote(line: Seq<char>) -> Option<(Seq<char>, Seq<char>, Seq<char>, Seq<char>)> {
    match line_code(line) {
        Some(code) => if code.len() == 0 || code == "hq_str"@ {
            None
        } else {
            match body_quote(code, line_body(line)) {
                Some((name, latest, prev)) => Some((code, name, latest, prev)),
                None => None,
            }
        },
        None => None,
    }
}

/// The text of read quote fields: (code, name, latest, previous settlement).
pub open spec fn fields_view(q: QuoteFields) -> (Seq<char>, Seq<char>, Seq<char>, Seq<char>) {
    (q.code@, q.name@, q.latest@, q.prev_settle@)
}

/// The code and the trimmed body of a quote line: `None` for a line without `=`, or
/// whose code is empty or `hq_str`.
pub fn split_quote_line(line: &str) -> (r: Option<(String, String)>)
    ensures
        match r {
            Some((c, b)) => line_code(line@) == Some(c@) && c@.len() > 0 && c@ != "hq_str"@ && b@ == line_body(line@),
            None => line_code(line@) matches Some(c) ==> (c.len() == 0 || c == "hq_str"@),
        },
{
    let cs = chars_of(line);
    let eq = match find_char_idx(cs.as_slice(), '=') {
        Some(i) => i,
        None => return None,
    };
    let head = slice_to_vec(cs.as_slice(), 0, eq);
    let prefix = trim_chars(head.as_slice());
    let pieces = split_chars(prefix.as_slice(), '_', '_');
    proof {
        crate::text::lemma_split_nonempty(prefix@, '_', '_');
    }
    let code = slice_to_vec(pieces[pieces.len() - 1].as_slice(), 0, pieces[pieces.len() - 1].len());
    assert(code@ =~= pieces@[pieces@.len() - 1]@);
    if code.len() == 0 || eq_lit(code.as_slice(), "hq_str") {
        return None;
    }
    let len = cs.len();
    assert(eq < len);
    let tail = slice_to_vec(cs.as_slice(), eq + 1, len);
    let t1 = trim_chars(tail.as_slice());
    let body = body_trim_chars(t1.as_slice());
    Some((string_from_chars(code.as_slice()), string_from_chars(body.as_slice())))
}

/// Whether a quote line lies within what `parse_quote_line` reads: a line without `=`
/// does, and otherwise its code's first two bytes must be cuttable.
pub fn quote_line_readable(line: &str) -> (r: bool)
    ensures
        r == (line_code(line@) matches Some(c) ==> prefix_cuttable(c)),
{
    let cs = chars_of(line);
    let eq = match find_char_idx(cs.as_slice(), '=') {
        Some(i) => i,
        None => return true,
    };
    let head = slice_to_vec(cs.as_slice(), 0, eq);
    let prefix = trim_chars(head.as_slice());
    let pieces = split_chars(prefix.as_slice(), '_', '_');
    proof {
        crate::text::lemma_split_nonempty(prefix@, '_', '_');
    }
    let code = slice_to_vec(pieces[pieces.len() - 1].as_slice(), 0, pieces[pieces.len() - 1].len());
    assert(code@ =~= pieces@[pieces@.len() - 1]@);
    code_cuttable(code.as_slice())
}

fn width_of(c: char) -> (w: usize)
    ensures
        w == utf8_width(c),
{
    let u = c as u32;
    if u < 0x80 {
        1
    } else if u < 0x800 {
        2
    } else if u < 0x10000 {
        3
    } else {
        4
    }
}

fn code_cuttable(code: &[char]) -> (r: bool)
    ensures
        r == prefix_cuttable(code@),
{
    if code.len() == 0 {
        assert(utf8_len(code@) == 0);
        return true;
    }
    let w0 = width_of(code[0]);
    if w0 == 2 {
        return true;
    }
    if code.len() >= 2 && w0 == 1 && width_of(code[1]) == 1 {
        return true;
    }
    // Otherwise the code is cuttable only when it is at most two bytes long.
    proof {
        lemma_utf8_first(code@);
    }
    if code.len() == 1 {
        proof {
            assert(code@.drop_last().len() == 0);
            assert(utf8_len(code@.drop_last()) == 0);
            assert(utf8_len(code@) == utf8_len(code@.drop_last()) + utf8_width(code@.last()));
            assert(utf8_len(code@) == utf8_width(code@[0]));
        }
        w0 <= 2
    } else {
        proof {
            lemma_utf8_two(code@);
        }
        false
    }
}

proof fn lemma_utf8_first(s: Seq<char>)
    requires
        s.len() > 0,
    ensures
        utf8_len(s) >= utf8_width(s[0]),
    decreases s.len(),
{
    assert(utf8_len(s) == utf8_len(s.drop_last()) + utf8_width(s.last()));
    assert(utf8_width(s.last()) >= 1);
    if s.len() > 1 {
        lemma_utf8_first(s.drop_last());
        assert(s.drop_last()[0] == s[0]);
    } else {
        assert(s.drop_last().len() == 0);
        assert(utf8_len(s.drop_last()) == 0);
    }
}

proof fn lemma_utf8_two(s: Seq<char>)
    requires
        s.len() >= 2,
    ensures
        utf8_len(s) >= utf8_width(s[0]) + utf8_width(s[1]),
    decreases s.len(),
{
    assert(utf8_len(s) == utf8_len(s.drop_last()) + utf8_width(s.last()));
    if s.len() > 2 {
        lemma_utf8_two(s.drop_last());
        assert(s.drop_last()[0] == s[0] && s.drop_last()[1] == s[1]);
        assert(utf8_width(s.last()) >= 1);
    } else {
        let t = s.drop_last();
        assert(t.drop_last().len() == 0);
        assert(t.last() == s[0]);
        assert(utf8_len(t) == utf8_len(t.drop_last()) + utf8_width(t.last()));
        assert(utf8_len(t.drop_last()) == 0);
    }
}

/// Reads a quote line (see `line_quote`). A code whose first two bytes cannot be cut
/// off (see `prefix_cuttable`) is outside what this reads.
pub fn parse_quote_line(line: &str) -> (r: Option<QuoteFields>)
    requires
        line_code(line@) matches Some(c) ==> prefix_cuttable(c),
    ensures
        match r {
            Some(q) => line_quote(line@) == Some(fields_view(q)),
            None => line_quote(line@) is None,
        },
{
    let cs = chars_of(line);
    let eq = match find_char_idx(cs.as_slice(), '=') {
        Some(i) => i,
        None => return None,
    };
    let head = slice_to_vec(cs.as_slice(), 0, eq);
    let prefix = trim_chars(head.as_slice());
    let pieces = split_chars(prefix.as_slice(), '_', '_');
    proof {
        crate::text::lemma_split_nonempty(prefix@, '_', '_');
    }
    let code = slice_to_vec(pieces[pieces.len() - 1].as_slice(), 0, pieces[pieces.len() - 1].len());
    assert(code@ =~= pieces@[pieces@.len() - 1]@);
    if code.len() == 0 || eq_lit(code.as_slice(), "hq_str") {
        return None;
    }
    let tail = slice_to_vec(cs.as_slice(), eq + 1, cs.len());
    let t1 = trim_chars(tail.as_slice());
    let body = body_trim_chars(t1.as_slice());
    let code_text = string_from_chars(code.as_slice());
    let body_text = string_from_chars(body.as_slice());
    match parse_quote_body(code_text.as_str(), body_text.as_str()) {
        Some(q) => Some(q),
        None => None,
    }
}

/// Reads the body of a quote for `code` (see `body_quote`). A code whose first two
/// bytes cannot be cut off (see `prefix_cuttable`) is outside what this reads.
pub fn parse_quote_body(code: &str, body: &str) -> (r: Option<QuoteFields>)
    requires
        prefix_cuttable(code@),
    ensures
        match r {
            Some(q) => body_quote(code@, body@) == Some((q.name@, q.latest@, q.prev_settle@)) && q.code@ == code@,
            None => body_quote(code@, body@) is None,
        },
{
    let code = chars_of(code);
    let body = chars_of(body);
    if body.len() == 0 {
        return None;
    }
    let f = split_chars(body.as_slice(), ',', ',');
    let is_index = code.len() >= 2 && code[0] == 'I' && (code[1] == 'F' || code[1] == 'H' || code[1] == 'C' || code[1] == 'M');
    if is_index {
        if f.len() < 15 || !parses_as_float(f[3].as_slice()) || !parses_as_float(f[14].as_slice()) {
            return None;
        }
        Some(QuoteFields {
            code: string_from_chars(code.as_slice()),
            name: string_from_chars(f[f.len() - 1].as_slice()),
            latest: string_from_chars(f[3].as_slice()),
            prev_settle: string_from_chars(f[14].as_slice()),
        })
    } else {
        if f.len() < 11 || !parses_as_float(f[8].as_slice()) || !parses_as_float(f[10].as_slice()) {
            return None;
        }
        Some(QuoteFields {
            code: string_from_chars(code.as_slice()),
            name: string_from_chars(f[0].as_slice()),
            latest: string_from_chars(f[8].as_slice()),
            prev_settle: string_from_chars(f[10].as_slice()),
        })
    }
}

/// The code starts with one of the index-future prefixes `IF`, `IH`, `IC`, `IM`.
pub open spec fn index_prefixed(code: Seq<char>) -> bool {
    ||| seq!['I', 'F'].is_prefix_of(code)
    ||| seq!['I', 'H'].is_prefix_of(code)
    ||| seq!['I', 'C'].is_prefix_of(code)
    ||| seq!['I', 'M'].is_prefix_of(code)
}

proof fn lemma_index_prefixed(code: Seq<char>)
    ensures
        index_code(code) <==> index_prefixed(code),
{
    if code.len() >= 2 {
        let p = code.subrange(0, 2);
        if index_code(code) {
            assert(p =~= seq![code[0], code[1]]);
        }
        if seq!['I', 'F'].is_prefix_of(code) || seq!['I', 'H'].is_prefix_of(code) || seq!['I', 'C'].is_prefix_of(code)
            || seq!['I', 'M'].is_prefix_of(code) {
            assert(p[0] == code[0] && p[1] == code[1]);
        }
    }
}

/// Which layout a quote body is read with depends on the code alone: index futures
/// (`IF`, `IH`, `IC`, `IM`...) give the name as the last field, the latest price as the
/// 4th and the previous settlement as the 15th, and need 15 fields; every other code
/// gives the name as the 1st field, the latest price as the 9th and the previous
/// settlement as the 11th, and needs 11 fields. Both prices must read as numbers; an
/// empty body gives nothing.
pub proof fn law_quote_layout_by_code(code: Seq<char>, body: Seq<char>)
    ensures
        body.len() == 0 ==> body_quote(code, body) is None,
        ({
            let f = split_either(body, ',', ',');
            body.len() > 0 && index_prefixed(code) ==> body_quote(code, body) == if f.len() >= 15 && is_float_literal(f[3])
                && is_float_literal(f[14]) {
                Some((f[f.len() - 1], f[3], f[14]))
            } else {
                None
            }
        }),
        ({
            let f = split_either(body, ',', ',');
            body.len() > 0 && !index_prefixed(code) ==> body_quote(code, body) == if f.len() >= 11 && is_float_literal(
                f[8],
            ) && is_float_literal(f[10]) {
                Some((f[0], f[8], f[10]))
            } else {
                None
            }
        }),
{
    lemma_index_prefixed(code);
}

} // verus!
