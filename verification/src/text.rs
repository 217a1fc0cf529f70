//! Character-level string handling shared by the parsers of this crate.
//!
//! Text is modelled as `Seq<char>`, the view of `str` and `String`.
use vstd::prelude::*;

verus! {

// ---------------------------------------------------------------------------
// Conversions
// ---------------------------------------------------------------------------

/// The characters of a string slice, in order.
pub fn chars_of(s: &str) -> (out: Vec<char>)
    ensures
        out@ == s@,
{
    let mut out: Vec<char> = Vec::new();
    for c in it: s.chars()
        invariant
            out@ == it.seq().take(it.index() as int),
            it.seq() == s@,
    {
        out.push(c);
    }
    out
}

/// Builds a `String` from its characters (`FromIterator<char>` for `String`).
#[verifier::external_body]
pub(crate) fn string_from_chars(v: &[char]) -> (s: String)
    ensures
        s@ == v@,
{
    v.iter().collect()
}

/// Copies a string slice into an owned `String`.
pub fn owned(s: &str) -> (out: String)
    ensures
        out@ == s@,
{
    s.to_owned()
}

/// Whether two character sequences are equal.
pub fn seq_eq(a: &[char], b: &[char]) -> (r: bool)
    ensures
        r == (a@ == b@),
{
    if a.len() != b.len() {
        return false;
    }
    let mut i: usize = 0;
    while i < a.len()
        invariant
            a@.len() == b@.len(),
            i <= a@.len(),
            forall|j: int| 0 <= j < i ==> a@[j] == b@[j],
        decreases a@.len() - i,
    {
        if a[i] != b[i] {
            return false;
        }
        i += 1;
    }
    assert(a@ =~= b@);
    true
}

/// Whether two string slices hold the same text.
pub fn str_eq(a: &str, b: &str) -> (r: bool)
    ensures
        r == (a@ == b@),
{
    let x = chars_of(a);
    let y = chars_of(b);
    seq_eq(x.as_slice(), y.as_slice())
}

/// Whether the characters `k` spell `lit`.
pub fn eq_lit(k: &[char], lit: &str) -> (r: bool)
    ensures
        r == (k@ == lit@),
{
    let l = chars_of(lit);
    seq_eq(k, l.as_slice())
}

/// Whether `s` begins with `p`.
pub open spec fn starts_with(s: Seq<char>, p: Seq<char>) -> bool {
    p.len() <= s.len() && s.subrange(0, p.len() as int) == p
}

/// Whether `s` ends with `p`.
pub open spec fn ends_with(s: Seq<char>, p: Seq<char>) -> bool {
    p.len() <= s.len() && s.subrange(s.len() - p.len(), s.len() as int) == p
}

/// Whether `p` occurs in `s` at position `i`.
pub open spec fn occurs_at(s: Seq<char>, p: Seq<char>, i: int) -> bool {
    0 <= i && i + p.len() <= s.len() && s.subrange(i, i + p.len()) == p
}

/// Tests whether `p` occurs in `s` at position `i`.
pub fn matches_at(s: &[char], p: &[char], i: usize) -> (r: bool)
    ensures
        r == occurs_at(s@, p@, i as int),
{
    if i > s.len() || p.len() > s.len() - i {
        return false;
    }
    let mut k: usize = 0;
    while k < p.len()
        invariant
            i + p@.len() <= s.len(),
            s.len() == s@.len(),
            k <= p@.len(),
            forall|j: int| 0 <= j < k ==> s@[i + j] == p@[j],
        decreases p@.len() - k,
    {
        assert(i + k < s@.len());
        if s[i + k] != p[k] {
            return false;
        }
        k += 1;
    }
    assert(s@.subrange(i as int, i + p@.len()) =~= p@);
    true
}

/// The first position at which `p` occurs in `s`.
pub open spec fn find_seq(s: Seq<char>, p: Seq<char>) -> Option<int> {
    if exists|i: int| occurs_at(s, p, i) {
        Some(choose|i: int| occurs_at(s, p, i) && forall|j: int| 0 <= j < i ==> !occurs_at(s, p, j))
    } else {
        None
    }
}

/// Finds the first occurrence of `p` in `s` (`str::find` with a string pattern).
pub fn find(s: &[char], p: &[char]) -> (r: Option<usize>)
    ensures
        r matches Some(i) ==> find_seq(s@, p@) == Some(i as int),
        r is None ==> find_seq(s@, p@) is None,
        r matches Some(i) ==> occurs_at(s@, p@, i as int) && forall|j: int|
            0 <= j < i ==> !occurs_at(s@, p@, j),
        r is None ==> forall|j: int| !occurs_at(s@, p@, j),
{
    if p.len() > s.len() {
        return None;
    }
    let limit = s.len() - p.len();
    let mut i: usize = 0;
    loop
        invariant
            i <= limit,
            limit == s@.len() - p@.len(),
            forall|j: int| 0 <= j < i ==> !occurs_at(s@, p@, j),
        ensures
            forall|j: int| 0 <= j <= limit ==> !occurs_at(s@, p@, j),
        decreases limit - i,
    {
        if matches_at(s, p, i) {
            proof {
                let c = choose|c: int|
                    occurs_at(s@, p@, c) && forall|j: int| 0 <= j < c ==> !occurs_at(s@, p@, j);
                assert(c == i as int) by {
                    if c > i {
                        assert(!occurs_at(s@, p@, i as int));
                    }
                }
            }
            return Some(i);
        }
        if i == limit {
            break;
        }
        i += 1;
    }
    proof {
        assert forall|j: int| !occurs_at(s@, p@, j) by {
            if 0 <= j && j + p@.len() <= s@.len() {
                assert(j <= limit);
            }
        }
    }
    None
}

// ---------------------------------------------------------------------------
// White space and trimming
// ---------------------------------------------------------------------------

/// Unicode `White_Space`, the set that `char::is_whitespace` tests.
pub open spec fn is_ws(c: char) -> bool {
    let u = c as u32;
    (0x09 <= u && u <= 0x0d) || u == 0x20 || u == 0x85 || u == 0xa0 || u == 0x1680 || (0x2000 <= u
        && u <= 0x200a) || u == 0x2028 || u == 0x2029 || u == 0x202f || u == 0x205f || u == 0x3000
}

/// Tests `is_ws`.
pub fn char_is_ws(c: char) -> (r: bool)
    ensures
        r == is_ws(c),
{
    let u = c as u32;
    (0x09 <= u && u <= 0x0d) || u == 0x20 || u == 0x85 || u == 0xa0 || u == 0x1680 || (0x2000 <= u
        && u <= 0x200a) || u == 0x2028 || u == 0x2029 || u == 0x202f || u == 0x205f || u == 0x3000
}

/// `s` without its leading white space.
pub open spec fn trim_start(s: Seq<char>) -> Seq<char>
    decreases s.len(),
{
    if s.len() > 0 && is_ws(s[0]) {
        trim_start(s.drop_first())
    } else {
        s
    }
}

/// `s` without its trailing white space.
pub open spec fn trim_end(s: Seq<char>) -> Seq<char>
    decreases s.len(),
{
    if s.len() > 0 && is_ws(s.last()) {
        trim_end(s.drop_last())
    } else {
        s
    }
}

/// `s` without leading and trailing white space (`str::trim`).
pub open spec fn trim(s: Seq<char>) -> Seq<char> {
    trim_end(trim_start(s))
}

proof fn lemma_trim_start_skip(s: Seq<char>, i: int)
    requires
        0 <= i <= s.len(),
        forall|j: int| 0 <= j < i ==> is_ws(s[j]),
    ensures
        trim_start(s) == trim_start(s.subrange(i, s.len() as int)),
    decreases i,
{
    if i > 0 {
        assert(s.drop_first() =~= s.subrange(1, s.len() as int));
        let t = s.drop_first();
        assert forall|j: int| 0 <= j < i - 1 implies is_ws(t[j]) by {
            assert(t[j] == s[j + 1]);
        }
        lemma_trim_start_skip(t, i - 1);
        assert(t.subrange(i - 1, t.len() as int) =~= s.subrange(i, s.len() as int));
    } else {
        assert(s.subrange(0, s.len() as int) =~= s);
    }
}

proof fn lemma_trim_end_skip(s: Seq<char>, k: int)
    requires
        0 <= k <= s.len(),
        forall|j: int| k <= j < s.len() ==> is_ws(s[j]),
    ensures
        trim_end(s) == trim_end(s.subrange(0, k)),
    decreases s.len() - k,
{
    if k < s.len() {
        let t = s.drop_last();
        lemma_trim_end_skip(t, k);
        assert(t.subrange(0, k) =~= s.subrange(0, k));
    } else {
        assert(s.subrange(0, k) =~= s);
    }
}

/// `trim_start`, computed: leading white space removed.
pub fn trim_start_chars(s: &[char]) -> (out: Vec<char>)
    ensures
        out@ == trim_start(s@),
{
    let mut i: usize = 0;
    while i < s.len() && char_is_ws(s[i])
        invariant
            i <= s@.len(),
            forall|j: int| 0 <= j < i ==> is_ws(s@[j]),
        decreases s@.len() - i,
    {
        i += 1;
    }
    proof {
        lemma_trim_start_skip(s@, i as int);
    }
    slice_to_vec(s, i, s.len())
}

/// `trim_end`, computed: trailing white space removed.
pub fn trim_end_chars(s: &[char]) -> (out: Vec<char>)
    ensures
        out@ == trim_end(s@),
{
    let mut k: usize = s.len();
    while k > 0 && char_is_ws(s[k - 1])
        invariant
            k <= s@.len(),
            forall|j: int| k <= j < s@.len() ==> is_ws(s@[j]),
        decreases k,
    {
        k -= 1;
    }
    proof {
        lemma_trim_end_skip(s@, k as int);
    }
    slice_to_vec(s, 0, k)
}

/// `trim`, computed.
pub fn trim_chars(s: &[char]) -> (out: Vec<char>)
    ensures
        out@ == trim(s@),
{
    let a = trim_start_chars(s);
    trim_end_chars(a.as_slice())
}

/// A copy of `s[lo..hi]`.
pub fn slice_to_vec(s: &[char], lo: usize, hi: usize) -> (out: Vec<char>)
    requires
        lo <= hi <= s@.len(),
    ensures
        out@ == s@.subrange(lo as int, hi as int),
{
    let mut out: Vec<char> = Vec::new();
    let mut i: usize = lo;
    while i < hi
        invariant
            lo <= i <= hi,
            hi <= s@.len(),
            out@ == s@.subrange(lo as int, i as int),
        decreases hi - i,
    {
        out.push(s[i]);
        i += 1;
        assert(out@ =~= s@.subrange(lo as int, i as int));
    }
    out
}

/// `s` with every trailing `c` removed (`trim_end_matches` with one character).
pub open spec fn strip_trailing(s: Seq<char>, c: char) -> Seq<char>
    decreases s.len(),
{
    if s.len() > 0 && s.last() == c {
        strip_trailing(s.drop_last(), c)
    } else {
        s
    }
}

proof fn lemma_strip_trailing_skip(s: Seq<char>, c: char, k: int)
    requires
        0 <= k <= s.len(),
        forall|j: int| k <= j < s.len() ==> s[j] == c,
    ensures
        strip_trailing(s, c) == strip_trailing(s.subrange(0, k), c),
    decreases s.len() - k,
{
    if k < s.len() {
        let t = s.drop_last();
        lemma_strip_trailing_skip(t, c, k);
        assert(t.subrange(0, k) =~= s.subrange(0, k));
    } else {
        assert(s.subrange(0, k) =~= s);
    }
}

/// Computes `strip_trailing`.
pub fn strip_trailing_chars(s: &[char], c: char) -> (out: Vec<char>)
    ensures
        out@ == strip_trailing(s@, c),
{
    let mut k: usize = s.len();
    while k > 0 && s[k - 1] == c
        invariant
            k <= s@.len(),
            forall|j: int| k <= j < s@.len() ==> s@[j] == c,
        decreases k,
    {
        k -= 1;
    }
    proof {
        lemma_strip_trailing_skip(s@, c, k as int);
    }
    slice_to_vec(s, 0, k)
}

// ---------------------------------------------------------------------------
// Searching for a character
// ---------------------------------------------------------------------------

/// The position of the first `c` in `s`.
pub open spec fn find_char(s: Seq<char>, c: char) -> Option<int> {
    if exists|i: int| 0 <= i < s.len() && s[i] == c {
        Some(choose|i: int| 0 <= i < s.len() && s[i] == c && forall|j: int| 0 <= j < i ==> s[j] != c)
    } else {
        None
    }
}

/// Finds the first `c` in `s`.
pub fn find_char_idx(s: &[char], c: char) -> (r: Option<usize>)
    ensures
        r matches Some(i) ==> find_char(s@, c) == Some(i as int),
        r is None ==> find_char(s@, c) is None,
        r matches Some(i) ==> i < s@.len() && s@[i as int] == c && forall|j: int|
            0 <= j < i ==> s@[j] != c,
        r is None ==> forall|j: int| 0 <= j < s@.len() ==> s@[j] != c,
{
    let mut i: usize = 0;
    while i < s.len()
        invariant
            i <= s@.len(),
            forall|j: int| 0 <= j < i ==> s@[j] != c,
        decreases s@.len() - i,
    {
        if s[i] == c {
            proof {
                let w = choose|w: int|
                    0 <= w < s@.len() && s@[w] == c && forall|j: int| 0 <= j < w ==> s@[j] != c;
                assert(w == i as int) by {
                    if w > i {
                        assert(s@[i as int] == c);
                    }
                }
            }
            return Some(i);
        }
        i += 1;
    }
    None
}

// ---------------------------------------------------------------------------
// Splitting
// ---------------------------------------------------------------------------

/// The position of the first `a` or `b` in `s`.
pub open spec fn find_either(s: Seq<char>, a: char, b: char) -> Option<int> {
    if exists|i: int| 0 <= i < s.len() && (s[i] == a || s[i] == b) {
        Some(choose|i: int| 0 <= i < s.len() && (s[i] == a || s[i] == b) && forall|j: int| 0 <= j < i ==> !(s[j] == a || s[j] == b))
    } else {
        None
    }
}

/// The pieces of `s` between the occurrences of `a` or `b` (`str::split` with a
/// character, or with a closure that matches either of two characters): there is
/// always one more piece than there are separators.
#[verifier::opaque]
pub open spec fn split_either(s: Seq<char>, a: char, b: char) -> Seq<Seq<char>>
    decreases s.len(),
{
    match find_either(s, a, b) {
        Some(i) => if 0 <= i < s.len() {
            seq![s.subrange(0, i)] + split_either(s.subrange(i + 1, s.len() as int), a, b)
        } else {
            seq![s]
        },
        None => seq![s],
    }
}

proof fn lemma_split_step(s: Seq<char>, a: char, b: char, start: int, i: int)
    requires
        0 <= start <= i < s.len(),
        s[i] == a || s[i] == b,
        forall|j: int| start <= j < i ==> !(s[j] == a || s[j] == b),
    ensures
        split_either(s.subrange(start, s.len() as int), a, b) == seq![s.subrange(start, i)] + split_either(
            s.subrange(i + 1, s.len() as int),
            a,
            b,
        ),
{
    let rest = s.subrange(start, s.len() as int);
    let k = i - start;
    assert(rest[k] == a || rest[k] == b);
    assert forall|j: int| 0 <= j < k implies !(rest[j] == a || rest[j] == b) by {
        assert(rest[j] == s[start + j]);
    }
    let w = choose|w: int|
        0 <= w < rest.len() && (rest[w] == a || rest[w] == b) && forall|j: int| 0 <= j < w ==> !(rest[j] == a || rest[j] == b);
    assert(w == k) by {
        if w > k {
            assert(rest[k] == a || rest[k] == b);
        }
    }
    assert(find_either(rest, a, b) == Some(k));
    reveal(split_either);
    assert(rest.subrange(0, k) =~= s.subrange(start, i));
    assert(rest.subrange(k + 1, rest.len() as int) =~= s.subrange(i + 1, s.len() as int));
}

/// Splitting always yields at least one piece.
pub proof fn lemma_split_nonempty(s: Seq<char>, a: char, b: char)
    ensures
        split_either(s, a, b).len() >= 1,
{
    reveal(split_either);
}

/// Splits `s` at every `a` or `b` (pass the same character twice for one separator).
pub fn split_chars(s: &[char], a: char, b: char) -> (out: Vec<Vec<char>>)
    ensures
        out@.len() == split_either(s@, a, b).len(),
        forall|j: int| 0 <= j < out@.len() ==> #[trigger] out@[j]@ == split_either(s@, a, b)[j],
{
    let mut out: Vec<Vec<char>> = Vec::new();
    let ghost mut pieces: Seq<Seq<char>> = Seq::empty();
    let mut start: usize = 0;
    let mut i: usize = 0;
    assert(s@.subrange(0, s@.len() as int) =~= s@);
    while i < s.len()
        invariant
            start <= i <= s@.len(),
            forall|j: int| start <= j < i ==> !(s@[j] == a || s@[j] == b),
            out@.len() == pieces.len(),
            forall|j: int| 0 <= j < out@.len() ==> #[trigger] out@[j]@ == pieces[j],
            split_either(s@, a, b) == pieces + split_either(s@.subrange(start as int, s@.len() as int), a, b),
        decreases s@.len() - i,
    {
        if s[i] == a || s[i] == b {
            let piece = slice_to_vec(s, start, i);
            proof {
                lemma_split_step(s@, a, b, start as int, i as int);
                assert(pieces + (seq![piece@] + split_either(s@.subrange(i + 1, s@.len() as int), a, b))
                    =~= pieces.push(piece@) + split_either(s@.subrange(i + 1, s@.len() as int), a, b));
                pieces = pieces.push(piece@);
            }
            out.push(piece);
            start = i + 1;
        }
        i += 1;
    }
    let last = slice_to_vec(s, start, s.len());
    proof {
        let rest = s@.subrange(start as int, s@.len() as int);
        assert forall|j: int| 0 <= j < rest.len() implies !(rest[j] == a || rest[j] == b) by {
            assert(rest[j] == s@[start + j]);
        }
        assert(find_either(rest, a, b) is None);
        assert(last@ =~= rest);
        reveal(split_either);
        assert(split_either(s@, a, b) =~= pieces.push(last@));
        pieces = pieces.push(last@);
    }
    out.push(last);
    out
}

// ---------------------------------------------------------------------------
// Tokens separated by white space
// ---------------------------------------------------------------------------

/// The position of the first white-space character of `s`, or its length.
pub open spec fn ws_pos(s: Seq<char>) -> int {
    if exists|i: int| 0 <= i < s.len() && is_ws(s[i]) {
        choose|i: int| 0 <= i < s.len() && is_ws(s[i]) && forall|j: int| 0 <= j < i ==> !is_ws(s[j])
    } else {
        s.len() as int
    }
}

/// The first white-space separated token of `s` and the text after it
/// (`str::split_whitespace` one step at a time); `None` when `s` is all white space.
pub open spec fn next_token(s: Seq<char>) -> Option<(Seq<char>, Seq<char>)> {
    let t = trim_start(s);
    if t.len() == 0 {
        None
    } else {
        Some((t.subrange(0, ws_pos(t)), t.subrange(ws_pos(t), t.len() as int)))
    }
}

/// Computes `next_token`.
pub fn next_token_chars(s: &[char]) -> (r: Option<(Vec<char>, Vec<char>)>)
    ensures
        r matches Some(p) ==> next_token(s@) == Some((p.0@, p.1@)),
        r is None ==> next_token(s@) is None,
{
    let t = trim_start_chars(s);
    if t.len() == 0 {
        return None;
    }
    let mut i: usize = 0;
    while i < t.len() && !char_is_ws(t[i])
        invariant
            i <= t@.len(),
            forall|j: int| 0 <= j < i ==> !is_ws(t@[j]),
        decreases t@.len() - i,
    {
        i += 1;
    }
    proof {
        if i < t@.len() {
            let w = choose|w: int| 0 <= w < t@.len() && is_ws(t@[w]) && forall|j: int| 0 <= j < w ==> !is_ws(t@[j]);
            assert(w == i as int) by {
                if w > i {
                    assert(is_ws(t@[i as int]));
                }
            }
        } else {
            assert(!exists|j: int| 0 <= j < t@.len() && is_ws(t@[j]));
        }
    }
    let tok = slice_to_vec(t.as_slice(), 0, i);
    let rest = slice_to_vec(t.as_slice(), i, t.len());
    Some((tok, rest))
}

// ---------------------------------------------------------------------------
// Building strings
// ---------------------------------------------------------------------------

/// Appends the characters of `s` to `v`.
pub fn push_str(v: &mut Vec<char>, s: &str)
    ensures
        final(v)@ == old(v)@ + s@,
{
    let cs = chars_of(s);
    push_chars(v, cs.as_slice());
}

/// Appends `cs` to `v`.
pub fn push_chars(v: &mut Vec<char>, cs: &[char])
    ensures
        final(v)@ == old(v)@ + cs@,
{
    let ghost start = v@;
    let mut i: usize = 0;
    while i < cs.len()
        invariant
            i <= cs@.len(),
            v@ == start + cs@.subrange(0, i as int),
        decreases cs@.len() - i,
    {
        v.push(cs[i]);
        i += 1;
        assert(v@ =~= start + cs@.subrange(0, i as int));
    }
    assert(cs@.subrange(0, cs@.len() as int) =~= cs@);
}

/// The text of an optional string.
pub open spec fn opt_view(o: Option<String>) -> Option<Seq<char>> {
    match o {
        Some(s) => Some(s@),
        None => None,
    }
}

/// A copy of an optional string.
pub fn clone_opt(o: &Option<String>) -> (r: Option<String>)
    ensures
        opt_view(r) == opt_view(*o),
{
    match o {
        Some(s) => Some(s.clone()),
        None => None,
    }
}

/// `s` without its leading `a` and `b` characters.
pub open spec fn strip_start_either(s: Seq<char>, a: char, b: char) -> Seq<char>
    decreases s.len(),
{
    if s.len() > 0 && (s[0] == a || s[0] == b) {
        strip_start_either(s.drop_first(), a, b)
    } else {
        s
    }
}

/// `s` without its trailing `a` and `b` characters.
pub open spec fn strip_end_either(s: Seq<char>, a: char, b: char) -> Seq<char>
    decreases s.len(),
{
    if s.len() > 0 && (s.last() == a || s.last() == b) {
        strip_end_either(s.drop_last(), a, b)
    } else {
        s
    }
}

/// `s` without leading and trailing `a` and `b` characters (`str::trim_matches` with a
/// closure that matches either character).
pub open spec fn strip_either(s: Seq<char>, a: char, b: char) -> Seq<char> {
    strip_end_either(strip_start_either(s, a, b), a, b)
}

proof fn lemma_strip_start_skip(s: Seq<char>, a: char, b: char, i: int)
    requires
        0 <= i <= s.len(),
        forall|j: int| 0 <= j < i ==> (s[j] == a || s[j] == b),
    ensures
        strip_start_either(s, a, b) == strip_start_either(s.subrange(i, s.len() as int), a, b),
    decreases i,
{
    if i > 0 {
        let t = s.drop_first();
        assert forall|j: int| 0 <= j < i - 1 implies (t[j] == a || t[j] == b) by {
            assert(t[j] == s[j + 1]);
        }
        lemma_strip_start_skip(t, a, b, i - 1);
        assert(t.subrange(i - 1, t.len() as int) =~= s.subrange(i, s.len() as int));
    } else {
        assert(s.subrange(0, s.len() as int) =~= s);
    }
}

proof fn lemma_strip_end_skip(s: Seq<char>, a: char, b: char, k: int)
    requires
        0 <= k <= s.len(),
        forall|j: int| k <= j < s.len() ==> (s[j] == a || s[j] == b),
    ensures
        strip_end_either(s, a, b) == strip_end_either(s.subrange(0, k), a, b),
    decreases s.len() - k,
{
    if k < s.len() {
        let t = s.drop_last();
        lemma_strip_end_skip(t, a, b, k);
        assert(t.subrange(0, k) =~= s.subrange(0, k));
    } else {
        assert(s.subrange(0, k) =~= s);
    }
}

/// Computes `strip_either`.
pub fn strip_either_chars(s: &[char], a: char, b: char) -> (out: Vec<char>)
    ensures
        out@ == strip_either(s@, a, b),
{
    let mut lo: usize = 0;
    while lo < s.len() && (s[lo] == a || s[lo] == b)
        invariant
            lo <= s@.len(),
            forall|j: int| 0 <= j < lo ==> (s@[j] == a || s@[j] == b),
        decreases s@.len() - lo,
    {
        lo += 1;
    }
    proof {
        lemma_strip_start_skip(s@, a, b, lo as int);
    }
    let t = slice_to_vec(s, lo, s.len());
    let mut hi: usize = t.len();
    while hi > 0 && (t[hi - 1] == a || t[hi - 1] == b)
        invariant
            hi <= t@.len(),
            forall|j: int| hi <= j < t@.len() ==> (t@[j] == a || t@[j] == b),
        decreases hi,
    {
        hi -= 1;
    }
    proof {
        if t@.len() > 0 {
            assert(!(t@[0] == a || t@[0] == b));
        }
        assert(strip_start_either(t@, a, b) == t@);
        lemma_strip_end_skip(t@, a, b, hi as int);
    }
    slice_to_vec(t.as_slice(), 0, hi)
}

/// What `str::to_uppercase` gives for `s` (Unicode upper-case mapping).
pub uninterp spec fn std_to_uppercase(s: Seq<char>) -> Seq<char>;

/// Upper-cases text with `str::to_uppercase`; the contract claims only that the result
/// is a function of the text.
#[verifier::external_body]
pub(crate) fn to_uppercase_chars(s: &[char]) -> (r: Vec<char>)
    ensures
        r@ == std_to_uppercase(s@),
{
    let text: String = s.iter().collect();
    text.to_uppercase().chars().collect()
}

/// The texts of a sequence of strings.
pub open spec fn views(v: Seq<String>) -> Seq<Seq<char>> {
    v.map_values(|s: String| s@)
}

} // verus!
