//! Contract search and the futures node table: which nodes a keyword hits, which
//! contracts it keeps, how hits are ranked, which codes the fallback probes, and how
//! the node table and the contract lists read.
use vstd::prelude::*;

use crate::derive::rollover::{utf8_len, utf8_width};
use crate::fetch::kline::{
    doc_view, json_document, object_text, object_text_exec, parse_json_document, row_view, JsonDoc, JsonRow, RowView,
    lemma_text_lt_irrefl, lemma_text_lt_total, lemma_text_lt_trans, text_lt, text_lt_exec};
use crate::fetch::node_table::{entries_from, entry_view, read_entries, EntryChars, NodeEntry};
use crate::fetch::symbols::FuturesSymbol;
use crate::num::{fmt_padded, is_digit, zero_pad};
use crate::text::{
    chars_of, find, find_seq, owned, push_chars, push_str, seq_eq, slice_to_vec, starts_with, std_to_uppercase,
    string_from_chars, to_uppercase_chars, trim, trim_chars, views,
};

verus! {

/// `s` without trailing ASCII digits.
pub open spec fn strip_digits(s: Seq<char>) -> Seq<char>
    decreases s.len(),
{
    if s.len() > 0 && is_digit(s.last()) {
        strip_digits(s.drop_last())
    } else {
        s
    }
}

/// Every character of `s` is ASCII.
pub open spec fn all_ascii(s: Seq<char>) -> bool {
    forall|i: int| 0 <= i < s.len() ==> (s[i] as u32) < 128
}

/// `p` occurs in `s` (`str::contains`).
pub open spec fn contains_text(s: Seq<char>, p: Seq<char>) -> bool {
    find_seq(s, p) is Some
}

/// A node is hit by a keyword: its code without the trailing digits is non-empty and
/// starts with the keyword or begins it (`RB` and `RB2` both hit `RB0`), or the keyword
/// is not ASCII and occurs in the node's variety name.
pub open spec fn node_hit(node: Seq<char>, variety: Seq<char>, kw: Seq<char>) -> bool {
    let base = strip_digits(node);
    ||| base.len() > 0 && (starts_with(base, kw) || starts_with(kw, base))
    ||| !all_ascii(kw) && contains_text(variety, kw)
}

/// A contract is hit by a keyword: its code starts with it, or the keyword is not
/// ASCII and occurs in its name.
pub open spec fn contract_hit(code: Seq<char>, name: Seq<char>, kw: Seq<char>) -> bool {
    starts_with(code, kw) || (!all_ascii(kw) && contains_text(name, kw))
}

fn all_ascii_exec(s: &[char]) -> (r: bool)
    ensures
        r == all_ascii(s@),
{
    let mut i: usize = 0;
    while i < s.len()
        invariant
            i <= s@.len(),
            forall|j: int| 0 <= j < i ==> (s@[j] as u32) < 128,
        decreases s@.len() - i,
    {
        if s[i] as u32 >= 128 {
            return false;
        }
        i += 1;
    }
    true
}

fn starts_with_exec(s: &[char], p: &[char]) -> (r: bool)
    ensures
        r == starts_with(s@, p@),
{
    if p.len() > s.len() {
        return false;
    }
    let head = slice_to_vec(s, 0, p.len());
    seq_eq(head.as_slice(), p)
}

proof fn lemma_strip_digits_skip(s: Seq<char>, k: int)
    requires
        0 <= k <= s.len(),
        forall|j: int| k <= j < s.len() ==> is_digit(s[j]),
    ensures
        strip_digits(s) == strip_digits(s.subrange(0, k)),
    decreases s.len() - k,
{
    if k < s.len() {
        let t = s.drop_last();
        lemma_strip_digits_skip(t, k);
        assert(t.subrange(0, k) =~= s.subrange(0, k));
    } else {
        assert(s.subrange(0, k) =~= s);
    }
}

fn strip_digits_chars(s: &[char]) -> (out: Vec<char>)
    ensures
        out@ == strip_digits(s@),
{
    let mut k: usize = s.len();
    while k > 0 && '0' <= s[k - 1] && s[k - 1] <= '9'
        invariant
            k <= s@.len(),
            forall|j: int| k <= j < s@.len() ==> is_digit(s@[j]),
        decreases k,
    {
        k -= 1;
    }
    proof {
        lemma_strip_digits_skip(s@, k as int);
    }
    slice_to_vec(s, 0, k)
}

/// Whether a node is hit by a keyword (see `node_hit`).
pub fn node_matches(node: &str, variety: &str, kw: &str) -> (r: bool)
    ensures
        r == node_hit(node@, variety@, kw@),
{
    let n = chars_of(node);
    let k = chars_of(kw);
    let base = strip_digits_chars(n.as_slice());
    let code_hit = base.len() > 0 && (starts_with_exec(base.as_slice(), k.as_slice()) || starts_with_exec(k.as_slice(), base.as_slice()));
    if code_hit {
        return true;
    }
    if all_ascii_exec(k.as_slice()) {
        return false;
    }
    let v = chars_of(variety);
    find(v.as_slice(), k.as_slice()).is_some()
}

/// Whether a contract is hit by a keyword (see `contract_hit`).
pub fn contract_matches(code: &str, name: &str, kw: &str) -> (r: bool)
    ensures
        r == contract_hit(code@, name@, kw@),
{
    let c = chars_of(code);
    let k = chars_of(kw);
    if starts_with_exec(c.as_slice(), k.as_slice()) {
        return true;
    }
    if all_ascii_exec(k.as_slice()) {
        return false;
    }
    let n = chars_of(name);
    find(n.as_slice(), k.as_slice()).is_some()
}

/// The keyword a search uses: trimmed and upper-cased.
pub fn search_keyword(keyword: &str) -> (k: String)
    ensures
        k@ == std_to_uppercase(trim(keyword@)),
{
    let t = trim_chars(chars_of(keyword).as_slice());
    string_from_chars(to_uppercase_chars(t.as_slice()).as_slice())
}

/// The keyword can be probed by the fallback search: non-empty, ASCII letters and
/// digits only.
pub open spec fn probe_keyword(kw: Seq<char>) -> bool {
    kw.len() > 0 && forall|i: int| 0 <= i < kw.len() ==> #[trigger] ascii_alnum(kw[i])
}

/// An ASCII letter or digit.
pub open spec fn ascii_alnum(c: char) -> bool {
    ('0' <= c <= '9') || ('a' <= c <= 'z') || ('A' <= c <= 'Z')
}

/// The codes the fallback search probes for a keyword in a year: the continuous
/// contract `<kw>0`, then `<kw><yy><mm>` for every month of this year and the next.
pub open spec fn probe_codes(kw: Seq<char>, year: int) -> Seq<Seq<char>> {
    seq![kw + "0"@] + Seq::new(24, |i: int| kw + zero_pad((year + i / 12) % 100, 2) + zero_pad(i % 12 + 1, 2))
}

fn probe_keyword_exec(k: &[char]) -> (r: bool)
    ensures
        r == probe_keyword(k@),
{
    if k.len() == 0 {
        return false;
    }
    let mut i: usize = 0;
    while i < k.len()
        invariant
            i <= k@.len(),
            forall|j: int| 0 <= j < i ==> #[trigger] ascii_alnum(k@[j]),
        decreases k@.len() - i,
    {
        let c = k[i];
        if !(('0' <= c && c <= '9') || ('a' <= c && c <= 'z') || ('A' <= c && c <= 'Z')) {
            assert(!ascii_alnum(k@[i as int]));
            return false;
        }
        i += 1;
    }
    true
}

/// The codes the fallback search probes (see `probe_codes`); `None` for a keyword it
/// cannot probe (see `probe_keyword`).
pub fn fallback_codes(kw: &str, year: u16) -> (r: Option<Vec<String>>)
    requires
        year < u16::MAX,
    ensures
        match r {
            Some(v) => probe_keyword(kw@) && views(v@) == probe_codes(kw@, year as int),
            None => !probe_keyword(kw@),
        },
{
    let k = chars_of(kw);
    if !probe_keyword_exec(k.as_slice()) {
        return None;
    }
    let mut out: Vec<String> = Vec::new();
    let mut first: Vec<char> = Vec::new();
    push_chars(&mut first, k.as_slice());
    push_str(&mut first, "0");
    out.push(string_from_chars(first.as_slice()));
    let ghost want = probe_codes(kw@, year as int);
    let mut i: usize = 0;
    while i < 24
        invariant
            i <= 24,
            k@ == kw@,
            year < u16::MAX,
            want == probe_codes(kw@, year as int),
            out@.len() == i + 1,
            forall|q: int| 0 <= q <= i ==> #[trigger] out@[q]@ == want[q],
        decreases 24 - i,
    {
        let y: u16 = year + (i / 12) as u16;
        let m: i64 = (i % 12) as i64 + 1;
        let mut c: Vec<char> = Vec::new();
        push_chars(&mut c, k.as_slice());
        push_chars(&mut c, fmt_padded((y % 100) as i64, 2).as_slice());
        push_chars(&mut c, fmt_padded(m, 2).as_slice());
        proof {
            assert(want[i as int + 1] == kw@ + zero_pad((year + i as int / 12) % 100, 2) + zero_pad(i as int % 12 + 1, 2));
        }
        out.push(string_from_chars(c.as_slice()));
        i += 1;
    }
    proof {
        assert(views(out@) =~= want);
    }
    Some(out)
}

/// One contract record of a node's list, as read from JSON: whether it is an object,
/// and its `symbol`, `name` and `exchange` when they are JSON strings.
#[derive(Debug, Clone)]
pub struct SymbolRecord {
    pub is_object: bool,
    pub symbol: Option<String>,
    pub name: Option<String>,
    pub exchange: Option<String>,
}

/// A futures node of the node table.
#[derive(Debug, Clone)]
pub struct FuturesNode {
    pub variety: String,
    pub node: String,
    pub base: Option<String>,
}

/// A record as plain values: (is an object, symbol, name, exchange).
pub type RecordView = (bool, Option<Seq<char>>, Option<Seq<char>>, Option<Seq<char>>);

/// The plain values of a record.
pub open spec fn record_view(r: SymbolRecord) -> RecordView {
    (r.is_object, crate::text::opt_view(r.symbol), crate::text::opt_view(r.name), crate::text::opt_view(r.exchange))
}

/// The contract a record gives for a node: it must be an object with a text
/// `symbol`; a missing name or exchange reads as empty.
pub open spec fn view_symbol(r: RecordView, node: FuturesNode) -> Option<(Seq<char>, Seq<char>, Seq<char>, Seq<char>, Seq<char>)> {
    if !r.0 {
        None
    } else {
        match r.1 {
            Some(code) => Some((
                code,
                match r.2 { Some(n) => n, None => Seq::empty() },
                node.variety@,
                match r.3 { Some(e) => e, None => Seq::empty() },
                node.node@,
            )),
            None => None,
        }
    }
}

/// The contract a record gives for a node (see `view_symbol`).
pub open spec fn record_symbol(r: SymbolRecord, node: FuturesNode) -> Option<(Seq<char>, Seq<char>, Seq<char>, Seq<char>, Seq<char>)> {
    view_symbol(record_view(r), node)
}

/// The text of a contract: (code, name, variety, exchange, node).
pub open spec fn symbol_view(s: FuturesSymbol) -> (Seq<char>, Seq<char>, Seq<char>, Seq<char>, Seq<char>) {
    (s.code@, s.name@, s.variety@, s.exchange@, s.node@)
}

fn text_or_empty(o: &Option<String>) -> (s: String)
    ensures
        s@ == (match *o { Some(t) => t@, None => Seq::<char>::empty() }),
{
    match o {
        Some(t) => owned(t.as_str()),
        None => String::new(),
    }
}

/// The contract a record gives for a node (see `record_symbol`).
pub fn symbol_from_record(r: &SymbolRecord, node: &FuturesNode) -> (s: Option<FuturesSymbol>)
    ensures
        match s {
            Some(x) => record_symbol(*r, *node) == Some(symbol_view(x)),
            None => record_symbol(*r, *node) is None,
        },
{
    if !r.is_object {
        return None;
    }
    match &r.symbol {
        Some(code) => Some(FuturesSymbol {
            code: owned(code.as_str()),
            name: text_or_empty(&r.name),
            variety: owned(node.variety.as_str()),
            exchange: text_or_empty(&r.exchange),
            node: owned(node.node.as_str()),
        }),
        None => None,
    }
}

/// The contracts of a node's list: every record must give one, else there are none.
pub fn symbols_from_records(records: &[SymbolRecord], node: &FuturesNode) -> (r: Option<Vec<FuturesSymbol>>)
    ensures
        match r {
            Some(v) => v@.len() == records@.len() && forall|k: int| 0 <= k < v@.len() ==> record_symbol(records@[k], *node) == Some(symbol_view(#[trigger] v@[k])),
            None => exists|k: int| 0 <= k < records@.len() && record_symbol(#[trigger] records@[k], *node) is None,
        },
{
    let mut out: Vec<FuturesSymbol> = Vec::new();
    let mut k: usize = 0;
    while k < records.len()
        invariant
            k <= records@.len(),
            out@.len() == k,
            forall|q: int| 0 <= q < k ==> record_symbol(records@[q], *node) == Some(symbol_view(#[trigger] out@[q])),
        decreases records@.len() - k,
    {
        match symbol_from_record(&records[k], node) {
            Some(s) => out.push(s),
            None => return None,
        }
        k += 1;
    }
    Some(out)
}

/// Why the node table does not read.
#[derive(Debug, Clone, Copy, PartialEq, Eq, Structural)]
pub enum NodesError {
    /// No `ARRFUTURESNODES` in the script.
    MissingTable,
    /// No `};` after it.
    MissingEnd,
}

/// The part of the node script that holds the table: from `ARRFUTURESNODES` up to and
/// including the first `};` after it.
pub open spec fn table_text(text: Seq<char>) -> Result<Seq<char>, NodesError> {
    match find_seq(text, "ARRFUTURESNODES"@) {
        None => Err(NodesError::MissingTable),
        Some(start) => {
            let body = text.subrange(start, text.len() as int);
            match find_seq(body, seq!['}', ';']) {
                None => Err(NodesError::MissingEnd),
                Some(end) => Ok(body.subrange(0, end + 2)),
            }
        },
    }
}

/// The nodes of the node table: each entry read from the table text (see
/// `node_table::entries_from`), as (variety, node, base).
pub open spec fn table_nodes(text: Seq<char>) -> Result<Seq<(Seq<char>, Seq<char>, Option<Seq<char>>)>, NodesError> {
    match table_text(text) {
        Err(e) => Err(e),
        Ok(t) => Ok(entries_from(t, 0).map_values(|x: NodeEntry| (x.0, x.1, x.3))),
    }
}

/// The text of nodes.
pub open spec fn node_views(n: Seq<FuturesNode>) -> Seq<(Seq<char>, Seq<char>, Option<Seq<char>>)> {
    n.map_values(|x: FuturesNode| (x.variety@, x.node@, crate::text::opt_view(x.base)))
}

/// Reads the futures node table from Sina's node script (see `table_nodes`).
#[verifier::rlimit(40)]
pub fn parse_futures_nodes(text: &str) -> (r: Result<Vec<FuturesNode>, NodesError>)
    ensures
        match (r, table_nodes(text@)) {
            (Ok(v), Ok(t)) => node_views(v@) == t,
            (Err(e), Err(f)) => e == f,
            _ => false,
        },
{
    let t = chars_of(text);
    let marker = chars_of("ARRFUTURESNODES");
    let start = match find(t.as_slice(), marker.as_slice()) {
        Some(s) => s,
        None => return Err(NodesError::MissingTable),
    };
    proof {
        assert(crate::text::occurs_at(t@, marker@, start as int));
    }
    let body = slice_to_vec(t.as_slice(), start, t.len());
    let close = vec!['}', ';'];
    assert(close@ =~= seq!['}', ';']);
    let end = match find(body.as_slice(), close.as_slice()) {
        Some(e) => e,
        None => return Err(NodesError::MissingEnd),
    };
    proof {
        assert(crate::text::occurs_at(body@, close@, end as int));
    }
    let table = slice_to_vec(body.as_slice(), 0, end + 2);
    let entries = read_entries(table.as_slice());
    let ghost ev = entries@.map_values(|e: EntryChars| entry_view(e));
    let mut out: Vec<FuturesNode> = Vec::new();
    let mut k: usize = 0;
    while k < entries.len()
        invariant
            k <= entries@.len(),
            ev == entries@.map_values(|e: EntryChars| entry_view(e)),
            out@.len() == k,
            forall|q: int| 0 <= q < k ==> #[trigger] node_views(out@)[q] == (ev[q].0, ev[q].1, ev[q].3),
        decreases entries@.len() - k,
    {
        let (v, n, _, b) = &entries[k];
        let base = match b {
            Some(x) => Some(string_from_chars(x.as_slice())),
            None => None,
        };
        let ghost before = out@;
        out.push(FuturesNode { variety: string_from_chars(v.as_slice()), node: string_from_chars(n.as_slice()), base });
        proof {
            assert forall|q: int| 0 <= q < k + 1 implies #[trigger] node_views(out@)[q] == (ev[q].0, ev[q].1, ev[q].3) by {
                assert(node_views(out@)[q] == (out@[q].variety@, out@[q].node@, crate::text::opt_view(out@[q].base)));
                if q < k {
                    assert(out@[q] == before[q]);
                    assert(node_views(before)[q] == (before[q].variety@, before[q].node@, crate::text::opt_view(before[q].base)));
                }
            }
        }
        k += 1;
    }
    proof {
        assert(table@ == table_text(text@).unwrap());
        assert(node_views(out@) =~= ev.map_values(|x: NodeEntry| (x.0, x.1, x.3)));
    }
    Ok(out)
}

/// The ranking order of contract codes: shorter first (in UTF-8 bytes; continuous
/// contracts have short codes), then in text order.
pub open spec fn code_lt(a: Seq<char>, b: Seq<char>) -> bool {
    utf8_len(a) < utf8_len(b) || (utf8_len(a) == utf8_len(b) && text_lt(a, b))
}

proof fn lemma_code_lt_irrefl(a: Seq<char>)
    ensures
        !code_lt(a, a),
{
    lemma_text_lt_irrefl(a);
}

proof fn lemma_code_lt_trans(a: Seq<char>, b: Seq<char>, c: Seq<char>)
    requires
        code_lt(a, b),
        code_lt(b, c),
    ensures
        code_lt(a, c),
{
    if utf8_len(a) == utf8_len(b) && utf8_len(b) == utf8_len(c) {
        lemma_text_lt_trans(a, b, c);
    }
}

proof fn lemma_code_lt_total(a: Seq<char>, b: Seq<char>)
    ensures
        a == b || code_lt(a, b) || code_lt(b, a),
{
    lemma_text_lt_total(a, b);
}

proof fn lemma_code_lt_asym(a: Seq<char>, b: Seq<char>)
    requires
        code_lt(a, b),
    ensures
        !code_lt(b, a),
{
    if code_lt(b, a) {
        lemma_code_lt_trans(a, b, a);
        lemma_code_lt_irrefl(a);
    }
}

fn utf8_len_exec(s: &[char]) -> (n: u128)
    ensures
        n == utf8_len(s@),
{
    let mut total: u128 = 0;
    let mut i: usize = 0;
    while i < s.len()
        invariant
            i <= s@.len(),
            total == utf8_len(s@.subrange(0, i as int)),
            total <= 4 * i,
        decreases s@.len() - i,
    {
        proof {
            crate::derive::rollover::lemma_utf8_len_push(s@.subrange(0, i as int), s@[i as int]);
            assert(s@.subrange(0, i as int).push(s@[i as int]) =~= s@.subrange(0, i as int + 1));
        }
        let c = s[i] as u32;
        let w: u128 = if c < 0x80 { 1 } else if c < 0x800 { 2 } else if c < 0x10000 { 3 } else { 4 };
        assert(w == utf8_width(s@[i as int]));
        total = total + w;
        i += 1;
    }
    assert(s@.subrange(0, s@.len() as int) =~= s@);
    total
}

fn code_lt_exec(a: &[char], la: u128, b: &[char], lb: u128) -> (r: bool)
    requires
        la == utf8_len(a@),
        lb == utf8_len(b@),
    ensures
        r == code_lt(a@, b@),
{
    la < lb || (la == lb && text_lt_exec(a, b))
}

/// Row `i`'s code is among the chosen positions' codes.
pub open spec fn among(ts: Seq<Seq<char>>, d: Seq<usize>, i: int) -> bool {
    exists|k: int| 0 <= k < d.len() && ts[d[k] as int] == ts[i]
}

/// The positions a ranking keeps: one per distinct code (the first row with it), in
/// ranking order (see `code_lt`), the first `limit` of them.
pub open spec fn ranked(ts: Seq<Seq<char>>, limit: nat, r: Seq<usize>) -> bool {
    &&& r.len() <= limit
    &&& forall|k: int| 0 <= k < r.len() ==> (#[trigger] r[k]) < ts.len() && crate::fetch::kline::first_of_kind(ts, r[k] as int)
    &&& forall|k1: int, k2: int| 0 <= k1 < k2 < r.len() ==> code_lt(ts[#[trigger] r[k1] as int], ts[#[trigger] r[k2] as int])
    &&& forall|i: int| 0 <= i < ts.len() ==> #[trigger] among(ts, r, i) || (r.len() == limit && (limit == 0 || code_lt(ts[r[r.len() - 1] as int], ts[i])))
}

/// Ranks contract codes (see `ranked`): duplicates dropped, shorter codes first, then
/// in text order, at most `limit` of them. The result lists positions.
#[verifier::rlimit(40)]
pub fn rank_codes(codes: &[String], limit: usize) -> (r: Vec<usize>)
    ensures
        ranked(views(codes@), limit as nat, r@),
{
    let ghost ts = views(codes@);
    let n = codes.len();
    let mut texts: Vec<Vec<char>> = Vec::new();
    let mut lens: Vec<u128> = Vec::new();
    let mut t: usize = 0;
    while t < n
        invariant
            t <= n == codes.len(),
            ts == views(codes@),
            texts@.len() == t && lens@.len() == t,
            forall|j: int| 0 <= j < t ==> #[trigger] texts@[j]@ == ts[j] && lens@[j] == utf8_len(ts[j]),
        decreases n - t,
    {
        let c = chars_of(codes[t].as_str());
        let l = utf8_len_exec(c.as_slice());
        texts.push(c);
        lens.push(l);
        t += 1;
    }
    let mut d: Vec<usize> = Vec::new();
    while d.len() < limit
        invariant
            n == ts.len() == texts@.len() == lens@.len(),
            forall|j: int| 0 <= j < n ==> #[trigger] texts@[j]@ == ts[j] && lens@[j] == utf8_len(ts[j]),
            d@.len() <= limit,
            forall|k: int| 0 <= k < d@.len() ==> (#[trigger] d@[k]) < n && crate::fetch::kline::first_of_kind(ts, d@[k] as int),
            forall|k1: int, k2: int| 0 <= k1 < k2 < d@.len() ==> code_lt(ts[#[trigger] d@[k1] as int], ts[#[trigger] d@[k2] as int]),
            d@.len() > 0 ==> forall|i: int| 0 <= i < n ==> #[trigger] among(ts, d@, i) || code_lt(ts[d@[d@.len() - 1] as int], ts[i]),
        ensures
            d@.len() < limit ==> forall|i: int| 0 <= i < n ==> #[trigger] among(ts, d@, i),
            d@.len() <= limit,
            forall|k: int| 0 <= k < d@.len() ==> (#[trigger] d@[k]) < n && crate::fetch::kline::first_of_kind(ts, d@[k] as int),
            forall|k1: int, k2: int| 0 <= k1 < k2 < d@.len() ==> code_lt(ts[#[trigger] d@[k1] as int], ts[#[trigger] d@[k2] as int]),
            d@.len() > 0 ==> forall|i: int| 0 <= i < n ==> #[trigger] among(ts, d@, i) || code_lt(ts[d@[d@.len() - 1] as int], ts[i]),
        decreases limit - d@.len(),
    {
        let has_bound = d.len() > 0;
        let bound: usize = if has_bound { d[d.len() - 1] } else { 0 };
        let ghost above = |i: int| !has_bound || code_lt(ts[bound as int], ts[i]);
        let mut best: Option<usize> = None;
        let mut i: usize = 0;
        while i < n
            invariant
                n == ts.len() == texts@.len() == lens@.len(),
                forall|j: int| 0 <= j < n ==> #[trigger] texts@[j]@ == ts[j] && lens@[j] == utf8_len(ts[j]),
                i <= n,
                has_bound ==> bound < n,
                above == (|i: int| !has_bound || code_lt(ts[bound as int], ts[i])),
                match best {
                    None => forall|j: int| 0 <= j < i ==> !#[trigger] above(j),
                    Some(b) => b < i && above(b as int) && forall|j: int| 0 <= j < i && #[trigger] above(j) ==> !code_lt(ts[j], ts[b as int])
                        && (ts[j] == ts[b as int] ==> b <= j),
                },
            decreases n - i,
        {
            let cand = !has_bound || code_lt_exec(texts[bound].as_slice(), lens[bound], texts[i].as_slice(), lens[i]);
            if cand {
                let better = match best {
                    None => true,
                    Some(b) => code_lt_exec(texts[i].as_slice(), lens[i], texts[b].as_slice(), lens[b]),
                };
                if better {
                    proof {
                        if let Some(b) = best {
                            assert forall|j: int| 0 <= j < i + 1 && #[trigger] above(j) implies !code_lt(ts[j], ts[i as int])
                                && (ts[j] == ts[i as int] ==> i <= j) by {
                                if j < i {
                                    lemma_code_lt_total(ts[b as int], ts[j]);
                                    if code_lt(ts[j], ts[i as int]) {
                                        if ts[j] != ts[b as int] {
                                            lemma_code_lt_trans(ts[b as int], ts[j], ts[i as int]);
                                        }
                                        lemma_code_lt_asym(ts[i as int], ts[b as int]);
                                    }
                                    if ts[j] == ts[i as int] {
                                        lemma_code_lt_irrefl(ts[b as int]);
                                        lemma_code_lt_asym(ts[i as int], ts[b as int]);
                                    }
                                } else {
                                    lemma_code_lt_irrefl(ts[j]);
                                }
                            }
                        } else {
                            assert forall|j: int| 0 <= j < i + 1 && #[trigger] above(j) implies !code_lt(ts[j], ts[i as int])
                                && (ts[j] == ts[i as int] ==> i <= j) by {
                                lemma_code_lt_irrefl(ts[j]);
                            }
                        }
                    }
                    best = Some(i);
                } else {
                    proof {
                        let b = best.unwrap();
                        assert forall|j: int| 0 <= j < i + 1 && #[trigger] above(j) implies !code_lt(ts[j], ts[b as int])
                            && (ts[j] == ts[b as int] ==> b <= j) by {
                        }
                    }
                }
            }
            i += 1;
        }
        match best {
            None => {
                proof {
                    if has_bound {
                        assert forall|j: int| 0 <= j < n implies #[trigger] among(ts, d@, j) by {
                            assert(!above(j));
                        }
                    } else {
                        assert(n == 0 || !above(0));
                    }
                }
                break;
            },
            Some(b) => {
                let ghost old_d = d@;
                proof {
                    assert forall|j: int| 0 <= j < b implies ts[j] != ts[b as int] by {
                        if ts[j] == ts[b as int] {
                            assert(above(j));
                        }
                    }
                    assert forall|k: int| 0 <= k < old_d.len() implies code_lt(ts[old_d[k] as int], ts[b as int]) by {
                        if k < old_d.len() - 1 {
                            lemma_code_lt_trans(ts[old_d[k] as int], ts[bound as int], ts[b as int]);
                        }
                    }
                }
                d.push(b);
                proof {
                    assert forall|j: int| 0 <= j < n implies #[trigger] among(ts, d@, j)
                        || code_lt(ts[d@[d@.len() - 1] as int], ts[j]) by {
                        if old_d.len() > 0 && among(ts, old_d, j) {
                            let k = choose|k: int| 0 <= k < old_d.len() && ts[old_d[k] as int] == ts[j];
                            assert(d@[k] == old_d[k]);
                        } else {
                            assert(above(j));
                            lemma_code_lt_total(ts[b as int], ts[j]);
                            if ts[b as int] == ts[j] {
                                assert(d@[d@.len() - 1] == b);
                            }
                        }
                    }
                }
            },
        }
    }
    d
}

/// The text under `key` of a row, when the row is an object.
pub open spec fn row_field(v: RowView, key: Seq<char>) -> Option<Seq<char>> {
    if v.0 == 0 {
        object_text(v.1, key)
    } else {
        None
    }
}

/// A row of a contract list as a record: whether it is an object, and its `symbol`,
/// `name` and `exchange` when they are JSON strings.
pub open spec fn row_record(v: RowView) -> RecordView {
    (v.0 == 0, row_field(v, "symbol"@), row_field(v, "name"@), row_field(v, "exchange"@))
}

/// The records of a contract list: `None` where the text is no JSON; else the elements
/// of a top-level array, or the one value, each as a record (see `json_document` and
/// `row_record`).
pub open spec fn json_symbol_records(body: Seq<char>) -> Option<Seq<RecordView>> {
    match json_document(body) {
        None => None,
        Some(d) => Some(d.1.map_values(|v: RowView| row_record(v))),
    }
}

/// The plain values of records.
pub open spec fn record_views(v: Seq<SymbolRecord>) -> Seq<RecordView> {
    v.map_values(|r: SymbolRecord| record_view(r))
}

/// Reads a row of a contract list as a record (see `row_record`).
pub fn record_of_row(row: &JsonRow) -> (r: SymbolRecord)
    ensures
        record_view(r) == row_record(row_view(*row)),
{
    match row {
        JsonRow::Object(e) => {
            let symbol = object_text_exec(e, "symbol");
            let name = object_text_exec(e, "name");
            let exchange = object_text_exec(e, "exchange");
            SymbolRecord { is_object: true, symbol, name, exchange }
        },
        _ => SymbolRecord { is_object: false, symbol: None, name: None, exchange: None },
    }
}

/// The records of a parsed contract list, in order: the elements of a top-level
/// array, or the one value (see `row_record`).
pub fn records_of_document(doc: &JsonDoc) -> (r: Vec<SymbolRecord>)
    ensures
        record_views(r@) == doc_view(*doc).1.map_values(|v: RowView| row_record(v)),
{
    let ghost want = doc_view(*doc).1.map_values(|v: RowView| row_record(v));
    let mut out: Vec<SymbolRecord> = Vec::new();
    match doc {
        JsonDoc::Single(row) => {
            out.push(record_of_row(row));
        },
        JsonDoc::Array(rows) => {
            let mut k: usize = 0;
            while k < rows.len()
                invariant
                    k <= rows@.len(),
                    *doc == JsonDoc::Array(*rows),
                    want == doc_view(*doc).1.map_values(|v: RowView| row_record(v)),
                    out@.len() == k,
                    forall|q: int| 0 <= q < k ==> record_view(#[trigger] out@[q]) == want[q],
                decreases rows@.len() - k,
            {
                let rec = record_of_row(&rows[k]);
                out.push(rec);
                k += 1;
            }
        },
    }
    assert(record_views(out@) =~= want);
    out
}

/// Reads a contract list with `serde_json` (see `json_symbol_records`).
fn symbol_records_of(body: &str) -> (r: Option<Vec<SymbolRecord>>)
    ensures
        match r {
            Some(v) => json_symbol_records(body@) == Some(record_views(v@)),
            None => json_symbol_records(body@) is None,
        },
{
    match parse_json_document(body) {
        None => None,
        Some(doc) => Some(records_of_document(&doc)),
    }
}

/// Every contract of a contract list for a node, in order (see `json_symbol_records`
/// and `view_symbol`); `None` where the text is no JSON or an element gives no
/// contract.
pub fn symbols_from_json(body: &str, node: &FuturesNode) -> (r: Option<Vec<FuturesSymbol>>)
    ensures
        match json_symbol_records(body@) {
            None => r is None,
            Some(recs) => match r {
                Some(v) => v@.len() == recs.len() && forall|k: int| 0 <= k < v@.len() ==> view_symbol(recs[k], *node) == Some(symbol_view(#[trigger] v@[k])),
                None => exists|k: int| 0 <= k < recs.len() && view_symbol(#[trigger] recs[k], *node) is None,
            },
        },
{
    let records = symbol_records_of(body)?;
    let r = symbols_from_records(records.as_slice(), node);
    proof {
        let recs = record_views(records@);
        match &r {
            Some(v) => {
                assert forall|k: int| 0 <= k < v@.len() implies view_symbol(recs[k], *node) == Some(symbol_view(#[trigger] v@[k])) by {
                    assert(record_symbol(records@[k], *node) == Some(symbol_view(v@[k])));
                }
            },
            None => {
                let k = choose|k: int| 0 <= k < records@.len() && record_symbol(#[trigger] records@[k], *node) is None;
                assert(view_symbol(recs[k], *node) is None);
            },
        }
    }
    r
}

/// The first contract of a contract list for a node (see `json_symbol_records` and
/// `view_symbol`); `None` where the text is no JSON, the list is empty or its first
/// element gives no contract.
pub fn first_symbol_from_json(body: &str, node: &FuturesNode) -> (r: Option<FuturesSymbol>)
    ensures
        match json_symbol_records(body@) {
            None => r is None,
            Some(recs) => if recs.len() == 0 {
                r is None
            } else {
                match r {
                    Some(x) => view_symbol(recs[0], *node) == Some(symbol_view(x)),
                    None => view_symbol(recs[0], *node) is None,
                }
            },
        },
{
    let records = symbol_records_of(body)?;
    if records.len() == 0 {
        return None;
    }
    assert(record_views(records@)[0] == record_view(records@[0]));
    symbol_from_record(&records[0], node)
}

} // verus!
