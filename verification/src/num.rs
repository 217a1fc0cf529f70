//! Decimal integers in text: the `FromStr` grammar of Rust's integer types and
//! zero-padded decimal formatting (`{:0N}`).
use vstd::prelude::*;

verus! {

/// An ASCII decimal digit.
pub open spec fn is_digit(c: char) -> bool {
    '0' <= c && c <= '9'
}

/// The value of an ASCII decimal digit.
pub open spec fn digit_val(c: char) -> int {
    (c as int) - ('0' as int)
}

/// The value of a run of decimal digits.
pub open spec fn digits_value(s: Seq<char>) -> int
    decreases s.len(),
{
    if s.len() == 0 {
        0
    } else {
        10 * digits_value(s.drop_last()) + digit_val(s.last())
    }
}

/// A non-empty run of decimal digits.
pub open spec fn all_digits(s: Seq<char>) -> bool {
    s.len() > 0 && forall|i: int| 0 <= i < s.len() ==> is_digit(s[i])
}

/// What `str::parse` gives for an integer type whose values are `lo..=hi`:
/// an optional `+` (or `-` when the type is signed) and at least one digit,
/// whose value lies in range; anything else is an error (`None`).
pub open spec fn parse_int(s: Seq<char>, signed: bool, lo: int, hi: int) -> Option<int> {
    let neg = signed && s.len() > 0 && s[0] == '-';
    let body = if s.len() > 0 && (s[0] == '+' || neg) {
        s.drop_first()
    } else {
        s
    };
    if !all_digits(body) {
        None
    } else {
        let v = if neg {
            -digits_value(body)
        } else {
            digits_value(body)
        };
        if lo <= v && v <= hi {
            Some(v)
        } else {
            None
        }
    }
}

proof fn lemma_digits_value_nonneg(s: Seq<char>)
    requires
        forall|i: int| 0 <= i < s.len() ==> is_digit(s[i]),
    ensures
        digits_value(s) >= 0,
    decreases s.len(),
{
    if s.len() > 0 {
        lemma_digits_value_nonneg(s.drop_last());
    }
}

/// Parses an integer with `parse_int`'s grammar; the range is `lo..=hi`.
#[verifier::rlimit(40)]
pub fn parse_int_chars(s: &[char], signed: bool, lo: i128, hi: i128) -> (r: Option<i128>)
    requires
        lo <= 0 <= hi,
        hi < 0x1_0000_0000_0000_0000,
        -0x1_0000_0000_0000_0000 < lo,
    ensures
        r matches Some(v) ==> parse_int(s@, signed, lo as int, hi as int) == Some(v as int),
        r is None ==> parse_int(s@, signed, lo as int, hi as int) is None,
{
    let neg = signed && s.len() > 0 && s[0] == '-';
    let start: usize = if s.len() > 0 && (s[0] == '+' || neg) {
        1
    } else {
        0
    };
    let ghost body = if s@.len() > 0 && (s@[0] == '+' || neg) {
        s@.drop_first()
    } else {
        s@
    };
    assert(body =~= s@.subrange(start as int, s@.len() as int));
    if start >= s.len() {
        return None;
    }
    let cap: u128 = 0x1_0000_0000_0000_0001;
    let mut acc: u128 = 0;
    let mut i: usize = start;
    while i < s.len()
        invariant
            start <= i <= s@.len(),
            body =~= s@.subrange(start as int, s@.len() as int),
            body == (if s@.len() > 0 && (s@[0] == '+' || (signed && s@.len() > 0 && s@[0] == '-')) {
                s@.drop_first()
            } else {
                s@
            }),
            cap == 0x1_0000_0000_0000_0001,
            forall|j: int| start <= j < i ==> is_digit(s@[j]),
            acc <= cap,
            acc as int == if digits_value(s@.subrange(start as int, i as int)) < cap {
                digits_value(s@.subrange(start as int, i as int))
            } else {
                cap as int
            },
        decreases s@.len() - i,
    {
        let c = s[i];
        if !('0' <= c && c <= '9') {
            proof {
                assert(body[i - start] == c);
            }
            return None;
        }
        let d = (c as u32 - '0' as u32) as u128;
        proof {
            let pre = s@.subrange(start as int, i as int);
            let post = s@.subrange(start as int, i + 1);
            assert(post.drop_last() =~= pre);
            assert(post.last() == c);
            assert forall|j: int| 0 <= j < pre.len() implies is_digit(pre[j]) by {
                assert(pre[j] == s@[start + j]);
            }
            lemma_digits_value_nonneg(pre);
        }
        let next = 10 * acc + d;
        acc = if next < cap {
            next
        } else {
            cap
        };
        i += 1;
    }
    proof {
        assert(s@.subrange(start as int, s@.len() as int) =~= body);
        assert(all_digits(body)) by {
            assert forall|j: int| 0 <= j < body.len() implies is_digit(body[j]) by {
                assert(body[j] == s@[start + j]);
            }
        }
        lemma_digits_value_nonneg(body);
    }
    if acc >= cap {
        return None;
    }
    let mag = acc as i128;
    let v: i128 = if neg {
        -mag
    } else {
        mag
    };
    if lo <= v && v <= hi {
        Some(v)
    } else {
        None
    }
}

/// `str::parse::<i32>`.
pub fn parse_i32(s: &[char]) -> (r: Option<i32>)
    ensures
        r matches Some(v) ==> parse_int(s@, true, i32::MIN as int, i32::MAX as int) == Some(
            v as int,
        ),
        r is None ==> parse_int(s@, true, i32::MIN as int, i32::MAX as int) is None,
{
    match parse_int_chars(s, true, i32::MIN as i128, i32::MAX as i128) {
        Some(v) => Some(v as i32),
        None => None,
    }
}

/// `str::parse::<u64>`.
pub fn parse_u64(s: &[char]) -> (r: Option<u64>)
    ensures
        r matches Some(v) ==> parse_int(s@, false, 0, u64::MAX as int) == Some(v as int),
        r is None ==> parse_int(s@, false, 0, u64::MAX as int) is None,
{
    match parse_int_chars(s, false, 0, u64::MAX as i128) {
        Some(v) => Some(v as u64),
        None => None,
    }
}

/// `str::parse::<u16>`.
pub fn parse_u16(s: &[char]) -> (r: Option<u16>)
    ensures
        r matches Some(v) ==> parse_int(s@, false, 0, u16::MAX as int) == Some(v as int),
        r is None ==> parse_int(s@, false, 0, u16::MAX as int) is None,
{
    match parse_int_chars(s, false, 0, u16::MAX as i128) {
        Some(v) => Some(v as u16),
        None => None,
    }
}

/// `str::parse::<u8>`.
pub fn parse_u8(s: &[char]) -> (r: Option<u8>)
    ensures
        r matches Some(v) ==> parse_int(s@, false, 0, u8::MAX as int) == Some(v as int),
        r is None ==> parse_int(s@, false, 0, u8::MAX as int) is None,
{
    match parse_int_chars(s, false, 0, u8::MAX as i128) {
        Some(v) => Some(v as u8),
        None => None,
    }
}

/// The digit character for `d < 10`.
pub open spec fn digit_char(d: int) -> char {
    ((d + '0' as int) as u32) as char
}

/// The decimal digits of `n`, without leading zeros (`"0"` for zero).
pub open spec fn decimal(n: nat) -> Seq<char>
    decreases n,
{
    if n < 10 {
        seq![digit_char(n as int)]
    } else {
        decimal(n / 10) + seq![digit_char((n % 10) as int)]
    }
}

/// `n` formatted with `{:0w}`: the sign, then zeros, then the digits, at least `w`
/// characters in all.
pub open spec fn zero_pad(n: int, w: nat) -> Seq<char> {
    let sign: Seq<char> = if n < 0 {
        seq!['-']
    } else {
        Seq::empty()
    };
    let digits = decimal((if n < 0 {
        -n
    } else {
        n
    }) as nat);
    let fill = if sign.len() + digits.len() < w {
        (w - sign.len() - digits.len()) as nat
    } else {
        0nat
    };
    sign + Seq::new(fill, |i: int| '0') + digits
}

fn digit_to_char(d: u64) -> (c: char)
    requires
        d < 10,
    ensures
        c == digit_char(d as int),
{
    let b: u8 = 48u8 + d as u8;
    b as char
}

/// The decimal digits of `n`.
pub fn fmt_u64(n: u64) -> (out: Vec<char>)
    ensures
        out@ == decimal(n as nat),
{
    let mut m = n;
    let mut out: Vec<char> = Vec::new();
    while m >= 10
        invariant
            decimal(n as nat) == decimal(m as nat) + out@,
        decreases m,
    {
        let d = digit_to_char(m % 10);
        proof {
            assert(decimal(m as nat) == decimal((m / 10) as nat) + seq![d]);
            assert(decimal((m / 10) as nat) + seq![d] + out@ =~= decimal((m / 10) as nat) + (seq![
                d,
            ] + out@));
        }
        let ghost before = out@;
        out.insert(0, d);
        assert(out@ =~= seq![d] + before);
        m = m / 10;
    }
    let d = digit_to_char(m);
    let ghost before = out@;
    out.insert(0, d);
    proof {
        assert(out@ =~= seq![d] + before);
        assert(decimal(m as nat) == seq![d]);
    }
    out
}

/// `n` formatted with `{:0w}`.
pub fn fmt_padded(n: i64, w: usize) -> (out: Vec<char>)
    ensures
        out@ == zero_pad(n as int, w as nat),
{
    let mag: u64 = if n < 0 {
        (-(n as i128)) as u64
    } else {
        n as u64
    };
    let digits = fmt_u64(mag);
    let mut out: Vec<char> = Vec::new();
    if n < 0 {
        out.push('-');
    }
    let sign_len: usize = if n < 0 {
        1
    } else {
        0
    };
    let ghost sign = out@;
    let mut k: usize = 0;
    let fill: usize = if digits.len() < w && sign_len < w - digits.len() {
        w - digits.len() - sign_len
    } else {
        0
    };
    while k < fill
        invariant
            k <= fill,
            out@ == sign + Seq::new(k as nat, |i: int| '0'),
        decreases fill - k,
    {
        out.push('0');
        k += 1;
        assert(out@ =~= sign + Seq::new(k as nat, |i: int| '0'));
    }
    let mut j: usize = 0;
    let ghost filled = out@;
    while j < digits.len()
        invariant
            j <= digits@.len(),
            out@ == filled + digits@.subrange(0, j as int),
        decreases digits@.len() - j,
    {
        out.push(digits[j]);
        j += 1;
        assert(out@ =~= filled + digits@.subrange(0, j as int));
    }
    proof {
        assert(digits@.subrange(0, digits@.len() as int) =~= digits@);
        if n < 0 {
            assert(sign =~= seq!['-']);
        } else {
            assert(sign =~= Seq::<char>::empty());
        }
    }
    out
}

/// ASCII lower case of one character.
pub open spec fn ascii_lower(c: char) -> char {
    if 'A' <= c && c <= 'Z' {
        ((c as u32) + 32) as char
    } else {
        c
    }
}

/// `s` equals `word` (lower-case ASCII) ignoring ASCII case.
pub open spec fn eq_ignore_case(s: Seq<char>, word: Seq<char>) -> bool {
    s.len() == word.len() && forall|i: int| 0 <= i < s.len() ==> ascii_lower(s[i]) == word[i]
}

/// `s` is a mantissa: digits with at most one `.` and at least one digit.
pub open spec fn is_mantissa(s: Seq<char>) -> bool {
    (exists|i: int| 0 <= i < s.len() && is_digit(s[i])) && (forall|i: int| 0 <= i < s.len() ==> is_digit(s[i]) || s[i] == '.')
        && (forall|i: int, j: int| 0 <= i < j < s.len() && s[i] == '.' ==> s[j] != '.')
}

/// `s` is an exponent body: an optional sign and at least one digit.
pub open spec fn is_exponent(s: Seq<char>) -> bool {
    if s.len() > 0 && (s[0] == '+' || s[0] == '-') {
        all_digits(s.drop_first())
    } else {
        all_digits(s)
    }
}

/// The grammar that the standard library's decimal floating-point parser accepts
/// (ASCII case-insensitive): an optional sign, then `inf`, `infinity`, `nan`, or a
/// mantissa with an optional `e` exponent; no surrounding white space.
#[verifier::opaque]
pub open spec fn is_float_literal(s: Seq<char>) -> bool {
    is_unsigned_float(if s.len() > 0 && (s[0] == '+' || s[0] == '-') {
        s.drop_first()
    } else {
        s
    })
}

/// The unsigned part of `is_float_literal`.
pub open spec fn is_unsigned_float(body: Seq<char>) -> bool {
    if eq_ignore_case(body, seq!['i', 'n', 'f']) || eq_ignore_case(body, seq!['i', 'n', 'f', 'i', 'n', 'i', 't', 'y'])
        || eq_ignore_case(body, seq!['n', 'a', 'n']) {
        true
    } else if exists|p: int| 0 <= p < body.len() && ascii_lower(body[p]) == 'e' {
        let p = choose|p: int| 0 <= p < body.len() && ascii_lower(body[p]) == 'e' && forall|q: int| 0 <= q < p ==> ascii_lower(body[q]) != 'e';
        is_mantissa(body.subrange(0, p)) && is_exponent(body.subrange(p + 1, body.len() as int))
    } else {
        is_mantissa(body)
    }
}

fn lower_exec(c: char) -> (r: char)
    ensures
        r == ascii_lower(c),
{
    if 'A' <= c && c <= 'Z' {
        ((c as u32) + 32) as u8 as char
    } else {
        c
    }
}

fn eq_ignore_case_exec(s: &[char], word: &[char]) -> (r: bool)
    ensures
        r == eq_ignore_case(s@, word@),
{
    if s.len() != word.len() {
        return false;
    }
    let mut i: usize = 0;
    while i < s.len()
        invariant
            s@.len() == word@.len(),
            i <= s@.len(),
            forall|j: int| 0 <= j < i ==> ascii_lower(s@[j]) == word@[j],
        decreases s@.len() - i,
    {
        if lower_exec(s[i]) != word[i] {
            return false;
        }
        i += 1;
    }
    true
}

fn is_mantissa_exec(s: &[char]) -> (r: bool)
    ensures
        r == is_mantissa(s@),
{
    let mut any_digit = false;
    let mut dot: Option<usize> = None;
    let mut i: usize = 0;
    while i < s.len()
        invariant
            i <= s@.len(),
            any_digit == exists|j: int| 0 <= j < i && is_digit(s@[j]),
            forall|j: int| 0 <= j < i ==> is_digit(s@[j]) || s@[j] == '.',
            dot matches Some(d) ==> d < i && s@[d as int] == '.' && forall|j: int| 0 <= j < i && j != d ==> s@[j] != '.',
            dot is None ==> forall|j: int| 0 <= j < i ==> s@[j] != '.',
        decreases s@.len() - i,
    {
        let c = s[i];
        if '0' <= c && c <= '9' {
            any_digit = true;
        } else if c == '.' {
            if dot.is_some() {
                proof {
                    let d = dot->0;
                    assert(s@[d as int] == '.' && s@[i as int] == '.');
                }
                return false;
            }
            dot = Some(i);
        } else {
            return false;
        }
        i += 1;
    }
    any_digit
}

fn is_exponent_exec(s: &[char]) -> (r: bool)
    ensures
        r == is_exponent(s@),
{
    let start: usize = if s.len() > 0 && (s[0] == '+' || s[0] == '-') {
        1
    } else {
        0
    };
    let ghost body = if s@.len() > 0 && (s@[0] == '+' || s@[0] == '-') {
        s@.drop_first()
    } else {
        s@
    };
    assert(body =~= s@.subrange(start as int, s@.len() as int));
    if start >= s.len() {
        return false;
    }
    let mut i: usize = start;
    while i < s.len()
        invariant
            start <= i <= s@.len(),
            body =~= s@.subrange(start as int, s@.len() as int),
            body == (if s@.len() > 0 && (s@[0] == '+' || s@[0] == '-') {
                s@.drop_first()
            } else {
                s@
            }),
            forall|j: int| start <= j < i ==> is_digit(s@[j]),
        decreases s@.len() - i,
    {
        if !('0' <= s[i] && s[i] <= '9') {
            assert(body[i - start] == s@[i as int]);
            return false;
        }
        i += 1;
    }
    assert forall|j: int| 0 <= j < body.len() implies is_digit(body[j]) by {
        assert(body[j] == s@[start + j]);
    }
    true
}

/// Whether the standard library's decimal floating-point parser accepts `s`
/// (see `is_float_literal`).
pub fn parses_as_float(s: &[char]) -> (r: bool)
    ensures
        r == is_float_literal(s@),
{
    reveal(is_float_literal);
    let start: usize = if s.len() > 0 && (s[0] == '+' || s[0] == '-') {
        1
    } else {
        0
    };
    let body = crate::text::slice_to_vec(s, start, s.len());
    proof {
        if s@.len() > 0 && (s@[0] == '+' || s@[0] == '-') {
            assert(body@ =~= s@.drop_first());
        } else {
            assert(body@ =~= s@);
        }
    }
    let inf = ['i', 'n', 'f'];
    let infinity = ['i', 'n', 'f', 'i', 'n', 'i', 't', 'y'];
    let nan = ['n', 'a', 'n'];
    proof {
        assert(inf@ =~= seq!['i', 'n', 'f']);
        assert(infinity@ =~= seq!['i', 'n', 'f', 'i', 'n', 'i', 't', 'y']);
        assert(nan@ =~= seq!['n', 'a', 'n']);
    }
    if eq_ignore_case_exec(body.as_slice(), &inf) || eq_ignore_case_exec(body.as_slice(), &infinity)
        || eq_ignore_case_exec(body.as_slice(), &nan) {
        return true;
    }
    let mut p: usize = 0;
    while p < body.len() && lower_exec(body[p]) != 'e'
        invariant
            p <= body@.len(),
            forall|q: int| 0 <= q < p ==> ascii_lower(body@[q]) != 'e',
        decreases body@.len() - p,
    {
        p += 1;
    }
    if p < body.len() {
        proof {
            let w = choose|w: int| 0 <= w < body@.len() && ascii_lower(body@[w]) == 'e' && forall|q: int| 0 <= q < w ==> ascii_lower(body@[q]) != 'e';
            assert(w == p as int) by {
                if w > p {
                    assert(ascii_lower(body@[p as int]) == 'e');
                }
            }
        }
        let mant = crate::text::slice_to_vec(body.as_slice(), 0, p);
        let exp = crate::text::slice_to_vec(body.as_slice(), p + 1, body.len());
        let r = is_mantissa_exec(mant.as_slice()) && is_exponent_exec(exp.as_slice());
        proof {
            assert(!eq_ignore_case(body@, seq!['i', 'n', 'f']));
            assert(ascii_lower(body@[p as int]) == 'e');
            assert(exists|q: int| 0 <= q < body@.len() && ascii_lower(body@[q]) == 'e');
            assert(r == is_unsigned_float(body@));
        }
        r
    } else {
        proof {
            assert(!exists|q: int| 0 <= q < body@.len() && ascii_lower(body@[q]) == 'e');
        }
        is_mantissa_exec(body.as_slice())
    }
}

} // verus!
