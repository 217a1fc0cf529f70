//! Data models of the finality observation and shadow validation system.
use vstd::prelude::*;

use crate::text::{
    chars_of, find_char, find_char_idx, push_chars, push_str, seq_eq, slice_to_vec,
    string_from_chars, strip_trailing, strip_trailing_chars, trim, trim_chars,
};
use crate::num::all_digits;
use crate::text::str_eq;
use crate::clock::{chrono_parse_datetime, parse_datetime};

verus! {

/// `raw` with insignificant trailing zeros of its fraction removed: the text is trimmed,
/// empty text reads `0`, `8260.00` reads `8260`, `8260.50` reads `8260.5`, and an
/// integer part that is empty, `-0` or `+` with no fraction left reads `0`.
pub open spec fn normalize_num(raw: Seq<char>) -> Seq<char> {
    let s = trim(raw);
    if s.len() == 0 {
        seq!['0']
    } else {
        match find_char(s, '.') {
            Some(i) => {
                let int_part = s.subrange(0, i);
                let tf = strip_trailing(s.subrange(i + 1, s.len() as int), '0');
                if tf.len() == 0 {
                    if int_part.len() == 0 || int_part == seq!['-', '0'] || int_part == seq!['+'] {
                        seq!['0']
                    } else {
                        int_part
                    }
                } else {
                    let int_clean = if int_part.len() == 0 {
                        seq!['0']
                    } else {
                        int_part
                    };
                    int_clean + seq!['.'] + tf
                }
            },
            None => s,
        }
    }
}

/// Normalises a numeric string so that equal numbers written with different
/// trailing zeros compare equal (`"8260.00"` becomes `"8260"`).
pub fn normalize_num_str(raw: &str) -> (out: String)
    ensures
        out@ == normalize_num(raw@),
{
    let all = chars_of(raw);
    let s = trim_chars(all.as_slice());
    if s.len() == 0 {
        let z = ['0'];
        proof {
            assert(z@ =~= seq!['0']);
        }
        return string_from_chars(&z);
    }
    match find_char_idx(s.as_slice(), '.') {
        Some(i) => {
            let int_part = slice_to_vec(s.as_slice(), 0, i);
            let frac = slice_to_vec(s.as_slice(), i + 1, s.len());
            let tf = strip_trailing_chars(frac.as_slice(), '0');
            if tf.len() == 0 {
                let minus_zero = ['-', '0'];
                let plus = ['+'];
                proof {
                    assert(minus_zero@ =~= seq!['-', '0']);
                    assert(plus@ =~= seq!['+']);
                }
                if int_part.len() == 0 || seq_eq(int_part.as_slice(), &minus_zero) || seq_eq(
                    int_part.as_slice(),
                    &plus,
                ) {
                    let z = ['0'];
                    proof {
                        assert(z@ =~= seq!['0']);
                    }
                    string_from_chars(&z)
                } else {
                    string_from_chars(int_part.as_slice())
                }
            } else {
                let mut out: Vec<char> = Vec::new();
                if int_part.len() == 0 {
                    out.push('0');
                    assert(out@ =~= seq!['0']);
                } else {
                    push_chars(&mut out, int_part.as_slice());
                    assert(out@ =~= int_part@);
                }
                out.push('.');
                push_chars(&mut out, tf.as_slice());
                string_from_chars(out.as_slice())
            }
        },
        None => string_from_chars(s.as_slice()),
    }
}

proof fn lemma_digits_no_dot_no_ws(d: Seq<char>)
    requires
        all_digits(d),
    ensures
        find_char(d, '.') is None,
        d.len() > 0,
        !crate::text::is_ws(d[0]),
        !crate::text::is_ws(d.last()),
{
    assert forall|j: int| 0 <= j < d.len() implies d[j] != '.' by {
        assert(crate::num::is_digit(d[j]));
    }
    assert(crate::num::is_digit(d[0]));
    assert(crate::num::is_digit(d[d.len() - 1]));
}

proof fn lemma_trim_no_ws(s: Seq<char>)
    requires
        s.len() > 0,
        !crate::text::is_ws(s[0]),
        !crate::text::is_ws(s.last()),
    ensures
        trim(s) == s,
{
}

proof fn lemma_strip_zeros(f: Seq<char>, k: nat)
    requires
        f.len() == 0 || f.last() != '0',
    ensures
        strip_trailing(f + Seq::new(k, |i: int| '0'), '0') == f,
    decreases k,
{
    if k > 0 {
        let t = f + Seq::new(k, |i: int| '0');
        assert(t.last() == '0');
        assert(t.drop_last() =~= f + Seq::new((k - 1) as nat, |i: int| '0'));
        lemma_strip_zeros(f, (k - 1) as nat);
    } else {
        assert(f + Seq::new(0, |i: int| '0') =~= f);
    }
}

/// Trailing zeros of a fraction carry no meaning: a number written as digits `d`,
/// a point and any run of zeros normalises to `d` itself, and with a fraction `f` that
/// does not end in `0` it normalises to `d.f` whatever zeros follow.
pub proof fn law_trailing_zeros_insignificant(d: Seq<char>, f: Seq<char>, k: nat)
    requires
        all_digits(d),
        f.len() == 0 || all_digits(f),
        f.len() == 0 || f.last() != '0',
    ensures
        normalize_num(d) == d,
        normalize_num(d + seq!['.'] + f + Seq::new(k, |i: int| '0')) == (if f.len() == 0 {
            d
        } else {
            d + seq!['.'] + f
        }),
{
    lemma_digits_no_dot_no_ws(d);
    lemma_trim_no_ws(d);
    let s = d + seq!['.'] + f + Seq::new(k, |i: int| '0');
    assert(s[0] == d[0]);
    let z = Seq::new(k, |i: int| '0');
    let tail = f + z;
    assert(s =~= d + seq!['.'] + tail);
    if tail.len() > 0 {
        assert(s.last() == tail.last());
        if k > 0 {
            assert(tail.last() == '0');
        } else {
            assert(tail =~= f);
            assert(crate::num::is_digit(f[f.len() - 1]));
        }
    } else {
        assert(s.last() == '.');
    }
    lemma_trim_no_ws(s);
    let i = d.len() as int;
    assert(s[i] == '.');
    assert forall|j: int| 0 <= j < i implies s[j] != '.' by {
        assert(s[j] == d[j]);
        assert(crate::num::is_digit(d[j]));
    }
    let w = choose|w: int| 0 <= w < s.len() && s[w] == '.' && forall|j: int| 0 <= j < w ==> s[j] != '.';
    assert(w == i) by {
        if w > i {
            assert(s[i] == '.');
        }
    }
    assert(find_char(s, '.') == Some(i));
    assert(s.subrange(0, i) =~= d);
    assert(s.subrange(i + 1, s.len() as int) =~= tail);
    lemma_strip_zeros(f, k);
    if d == seq!['-', '0'] {
        assert(crate::num::is_digit(d[0]));
    }
    if d == seq!['+'] {
        assert(crate::num::is_digit(d[0]));
    }
}

/// No character of `s` is white space.
pub open spec fn no_ws(s: Seq<char>) -> bool {
    forall|j: int| 0 <= j < s.len() ==> !crate::text::is_ws(#[trigger] s[j])
}

proof fn lemma_trim_of_no_ws(s: Seq<char>)
    requires
        no_ws(s),
    ensures
        trim(s) == s,
{
    if s.len() > 0 {
        lemma_trim_no_ws(s);
    }
}

proof fn lemma_find_char_at(s: Seq<char>, c: char, i: int)
    requires
        0 <= i < s.len(),
        s[i] == c,
        forall|j: int| 0 <= j < i ==> s[j] != c,
    ensures
        find_char(s, c) == Some(i),
{
    let w = choose|w: int| 0 <= w < s.len() && s[w] == c && forall|j: int| 0 <= j < w ==> s[j] != c;
    assert(w == i) by {
        if w > i {
            assert(s[i] == c);
        }
        if w < i {
            assert(s[w] != c);
        }
    }
}

proof fn lemma_find_char_none(s: Seq<char>, c: char)
    requires
        forall|j: int| 0 <= j < s.len() ==> s[j] != c,
    ensures
        find_char(s, c) is None,
{
}

proof fn lemma_strip_trailing_shape(f: Seq<char>, c: char)
    ensures
        strip_trailing(f, c).len() <= f.len(),
        strip_trailing(f, c) =~= f.subrange(0, strip_trailing(f, c).len() as int),
        strip_trailing(f, c).len() == 0 || strip_trailing(f, c).last() != c,
    decreases f.len(),
{
    if f.len() > 0 && f.last() == c {
        lemma_strip_trailing_shape(f.drop_last(), c);
    }
}

proof fn lemma_normalize_fixes_integer(x: Seq<char>)
    requires
        x.len() > 0,
        no_ws(x),
        forall|j: int| 0 <= j < x.len() ==> x[j] != '.',
    ensures
        normalize_num(x) == x,
{
    lemma_trim_of_no_ws(x);
    lemma_find_char_none(x, '.');
}

proof fn lemma_normalize_fixes_decimal(ic: Seq<char>, tf: Seq<char>)
    requires
        ic.len() > 0,
        no_ws(ic),
        forall|j: int| 0 <= j < ic.len() ==> ic[j] != '.',
        tf.len() > 0,
        no_ws(tf),
        tf.last() != '0',
    ensures
        normalize_num(ic + seq!['.'] + tf) == ic + seq!['.'] + tf,
{
    let n = ic + seq!['.'] + tf;
    assert(no_ws(n)) by {
        assert forall|j: int| 0 <= j < n.len() implies !crate::text::is_ws(#[trigger] n[j]) by {
            if j < ic.len() {
                assert(n[j] == ic[j]);
            } else if j > ic.len() {
                assert(n[j] == tf[j - ic.len() - 1]);
            } else {
                assert(n[j] == '.');
            }
        }
    }
    lemma_trim_of_no_ws(n);
    let k = ic.len() as int;
    assert(n[k] == '.');
    assert forall|j: int| 0 <= j < k implies n[j] != '.' by {
        assert(n[j] == ic[j]);
    }
    lemma_find_char_at(n, '.', k);
    assert(n.subrange(0, k) =~= ic);
    assert(n.subrange(k + 1, n.len() as int) =~= tf);
    assert(strip_trailing(tf, '0') == tf);
}

proof fn lemma_first_index(s: Seq<char>, c: char, k: int)
    requires
        0 <= k < s.len(),
        s[k] == c,
    ensures
        exists|w: int| 0 <= w < s.len() && s[w] == c && forall|j: int| 0 <= j < w ==> s[j] != c,
    decreases k,
{
    if exists|j: int| 0 <= j < k && s[j] == c {
        let j = choose|j: int| 0 <= j < k && s[j] == c;
        lemma_first_index(s, c, j);
    } else {
        assert(s[k] == c);
    }
}

proof fn lemma_first_dot(s: Seq<char>) -> (i: int)
    requires
        find_char(s, '.') is Some,
    ensures
        find_char(s, '.') == Some(i),
        0 <= i < s.len(),
        s[i] == '.',
        forall|j: int| 0 <= j < i ==> s[j] != '.',
{
    let k = choose|k: int| 0 <= k < s.len() && s[k] == '.';
    lemma_first_index(s, '.', k);
    choose|w: int| 0 <= w < s.len() && s[w] == '.' && forall|j: int| 0 <= j < w ==> s[j] != '.'
}

proof fn lemma_zero_padding(s: Seq<char>)
    requires
        no_ws(s),
        find_char(s, '.') is Some,
    ensures
        normalize_num(s + seq!['0']) == normalize_num(s),
{
    let i = lemma_first_dot(s);
    lemma_trim_of_no_ws(s);
    let t = s + seq!['0'];
    assert(!crate::text::is_ws('0'));
    assert(no_ws(t)) by {
        assert forall|j: int| 0 <= j < t.len() implies !crate::text::is_ws(#[trigger] t[j]) by {
            if j < s.len() {
                assert(t[j] == s[j]);
            } else {
                assert(t[j] == '0');
            }
        }
    }
    lemma_trim_of_no_ws(t);
    assert(t[i] == '.');
    assert forall|j: int| 0 <= j < i implies t[j] != '.' by {
        assert(t[j] == s[j]);
    }
    lemma_find_char_at(t, '.', i);
    assert(t.subrange(0, i) =~= s.subrange(0, i));
    let frac = s.subrange(i + 1, s.len() as int);
    let tfrac = t.subrange(i + 1, t.len() as int);
    assert(tfrac.last() == '0');
    assert(tfrac.drop_last() =~= frac);
    assert(strip_trailing(tfrac, '0') == strip_trailing(frac, '0'));
}

/// Normalising is idempotent on text without white space, and a zero appended to a
/// text that has a decimal point changes nothing.
pub proof fn law_normalize_idempotent_and_zero_padding(s: Seq<char>)
    requires
        no_ws(s),
    ensures
        normalize_num(normalize_num(s)) == normalize_num(s),
        find_char(s, '.') is Some ==> normalize_num(s + seq!['0']) == normalize_num(s),
{
    lemma_trim_of_no_ws(s);
    let zero = seq!['0'];
    assert(!crate::text::is_ws('0'));
    lemma_normalize_fixes_integer(zero);
    if s.len() > 0 && find_char(s, '.') is Some {
        let i = lemma_first_dot(s);
        let int_part = s.subrange(0, i);
        let frac = s.subrange(i + 1, s.len() as int);
        let tf = strip_trailing(frac, '0');
        lemma_strip_trailing_shape(frac, '0');
        assert(no_ws(int_part)) by {
            assert forall|j: int| 0 <= j < int_part.len() implies !crate::text::is_ws(#[trigger] int_part[j]) by {
                assert(int_part[j] == s[j]);
            }
        }
        assert forall|j: int| 0 <= j < int_part.len() implies int_part[j] != '.' by {
            assert(int_part[j] == s[j]);
        }
        if tf.len() == 0 {
            if int_part.len() > 0 {
                lemma_normalize_fixes_integer(int_part);
            }
        } else {
            assert(no_ws(tf)) by {
                assert forall|j: int| 0 <= j < tf.len() implies !crate::text::is_ws(#[trigger] tf[j]) by {
                    assert(tf[j] == frac[j]);
                    assert(frac[j] == s[i + 1 + j]);
                }
            }
            if int_part.len() == 0 {
                lemma_normalize_fixes_decimal(zero, tf);
            } else {
                lemma_normalize_fixes_decimal(int_part, tf);
            }
        }
        lemma_zero_padding(s);
    }
}

/// The text of a fingerprint: the bar timestamp and the six normalised values.
pub struct FingerprintModel {
    pub bar_ts: Seq<char>,
    pub open: Seq<char>,
    pub high: Seq<char>,
    pub low: Seq<char>,
    pub close: Seq<char>,
    pub volume: Seq<char>,
    pub hold: Seq<char>,
}

/// A strict bar fingerprint: the values are kept as normalised numeric strings so
/// that floating-point noise never shows up as a change.
#[derive(Debug, Clone, PartialEq, Eq, Hash)]
pub struct BarFingerprint {
    pub bar_ts: String,
    pub open: String,
    pub high: String,
    pub low: String,
    pub close: String,
    pub volume: String,
    pub hold: String,
}

impl BarFingerprint {
    /// The fingerprint's text.
    pub open spec fn model(&self) -> FingerprintModel {
        FingerprintModel {
            bar_ts: self.bar_ts@,
            open: self.open@,
            high: self.high@,
            low: self.low@,
            close: self.close@,
            volume: self.volume@,
            hold: self.hold@,
        }
    }

    /// Builds a fingerprint; every value is passed through `normalize_num_str`.
    pub fn new(
        bar_ts: &str,
        open: &str,
        high: &str,
        low: &str,
        close: &str,
        volume: &str,
        hold: &str,
    ) -> (fp: Self)
        ensures
            fp.bar_ts@ == bar_ts@,
            fp.open@ == normalize_num(open@),
            fp.high@ == normalize_num(high@),
            fp.low@ == normalize_num(low@),
            fp.close@ == normalize_num(close@),
            fp.volume@ == normalize_num(volume@),
            fp.hold@ == normalize_num(hold@),
    {
        BarFingerprint {
            bar_ts: bar_ts.to_owned(),
            open: normalize_num_str(open),
            high: normalize_num_str(high),
            low: normalize_num_str(low),
            close: normalize_num_str(close),
            volume: normalize_num_str(volume),
            hold: normalize_num_str(hold),
        }
    }

    /// Whether two fingerprints hold the same text (the derived `==`).
    pub fn same_as(&self, other: &Self) -> (r: bool)
        ensures
            r == (self.model() == other.model()),
    {
        str_eq_string(&self.bar_ts, &other.bar_ts) && str_eq_string(&self.open, &other.open)
            && str_eq_string(&self.high, &other.high) && str_eq_string(&self.low, &other.low)
            && str_eq_string(&self.close, &other.close) && str_eq_string(
            &self.volume,
            &other.volume,
        ) && str_eq_string(&self.hold, &other.hold)
    }

    /// A copy of the fingerprint.
    pub fn duplicate(&self) -> (r: Self)
        ensures
            r.model() == self.model(),
    {
        BarFingerprint {
            bar_ts: self.bar_ts.clone(),
            open: self.open.clone(),
            high: self.high.clone(),
            low: self.low.clone(),
            close: self.close.clone(),
            volume: self.volume.clone(),
            hold: self.hold.clone(),
        }
    }

    /// A readable signature for records and logs: `O:{} H:{} L:{} C:{} V:{} P:{}`.
    pub fn signature(&self) -> (s: String)
        ensures
            s@ == signature_text(self.model()),
    {
        let mut v: Vec<char> = Vec::new();
        push_str(&mut v, "O:");
        push_str(&mut v, self.open.as_str());
        push_str(&mut v, " H:");
        push_str(&mut v, self.high.as_str());
        push_str(&mut v, " L:");
        push_str(&mut v, self.low.as_str());
        push_str(&mut v, " C:");
        push_str(&mut v, self.close.as_str());
        push_str(&mut v, " V:");
        push_str(&mut v, self.volume.as_str());
        push_str(&mut v, " P:");
        push_str(&mut v, self.hold.as_str());
        string_from_chars(v.as_slice())
    }
}

/// The signature text of a fingerprint.
pub open spec fn signature_text(m: FingerprintModel) -> Seq<char> {
    "O:"@ + m.open + " H:"@ + m.high + " L:"@ + m.low + " C:"@ + m.close + " V:"@ + m.volume
        + " P:"@ + m.hold
}

/// Whether two strings hold the same text.
pub fn str_eq_string(a: &String, b: &String) -> (r: bool)
    ensures
        r == (a@ == b@),
{
    crate::text::str_eq(a.as_str(), b.as_str())
}

/// Trading session boundary a bar closes on.
#[derive(Debug, Clone, Copy, PartialEq, Eq, Hash, Structural)]
pub enum SessionType {
    Normal,
    Close1015,
    Close1130,
    Close1500,
    NightClose2300,
    NightClose0100,
    NightClose0230,
    NightCloseOther,
}

/// The stored name of a session type.
pub open spec fn session_name(t: SessionType) -> Seq<char> {
    match t {
        SessionType::Normal => "normal"@,
        SessionType::Close1015 => "10:15"@,
        SessionType::Close1130 => "11:30"@,
        SessionType::Close1500 => "15:00"@,
        SessionType::NightClose2300 => "night_2300"@,
        SessionType::NightClose0100 => "night_0100"@,
        SessionType::NightClose0230 => "night_0230"@,
        SessionType::NightCloseOther => "night_other"@,
    }
}

/// The session type a stored name stands for; any unknown name reads as
/// `NightCloseOther`.
pub open spec fn session_from_name(s: Seq<char>) -> SessionType {
    if s == "normal"@ {
        SessionType::Normal
    } else if s == "10:15"@ {
        SessionType::Close1015
    } else if s == "11:30"@ {
        SessionType::Close1130
    } else if s == "15:00"@ {
        SessionType::Close1500
    } else if s == "night_2300"@ {
        SessionType::NightClose2300
    } else if s == "night_0100"@ {
        SessionType::NightClose0100
    } else if s == "night_0230"@ {
        SessionType::NightClose0230
    } else {
        SessionType::NightCloseOther
    }
}

/// The session type of a bar by its close time (hour, minute).
pub open spec fn session_at(h: u32, m: u32) -> SessionType {
    if h == 10 && m == 15 {
        SessionType::Close1015
    } else if h == 11 && m == 30 {
        SessionType::Close1130
    } else if h == 15 && m == 0 {
        SessionType::Close1500
    } else if h == 23 && (m == 0 || m == 30) {
        SessionType::NightClose2300
    } else if h == 1 && m == 0 {
        SessionType::NightClose0100
    } else if h == 2 && m == 30 {
        SessionType::NightClose0230
    } else {
        SessionType::Normal
    }
}

impl SessionType {
    /// The stored name.
    pub fn as_str(&self) -> (s: &'static str)
        ensures
            s@ == session_name(*self),
    {
        match self {
            SessionType::Normal => "normal",
            SessionType::Close1015 => "10:15",
            SessionType::Close1130 => "11:30",
            SessionType::Close1500 => "15:00",
            SessionType::NightClose2300 => "night_2300",
            SessionType::NightClose0100 => "night_0100",
            SessionType::NightClose0230 => "night_0230",
            SessionType::NightCloseOther => "night_other",
        }
    }

    /// Reads a stored name back.
    pub fn from_str_name(s: &str) -> (t: Self)
        ensures
            t == session_from_name(s@),
    {
        if str_eq(s, "normal") {
            SessionType::Normal
        } else if str_eq(s, "10:15") {
            SessionType::Close1015
        } else if str_eq(s, "11:30") {
            SessionType::Close1130
        } else if str_eq(s, "15:00") {
            SessionType::Close1500
        } else if str_eq(s, "night_2300") {
            SessionType::NightClose2300
        } else if str_eq(s, "night_0100") {
            SessionType::NightClose0100
        } else if str_eq(s, "night_0230") {
            SessionType::NightClose0230
        } else {
            SessionType::NightCloseOther
        }
    }

    /// Classifies a bar by the calendar reading of its timestamp; a timestamp that does
    /// not read is `Normal`.
    pub fn classify_parts(parts: Option<(i32, u32, u32, u32, u32, u32)>) -> (t: Self)
        ensures
            t == match parts {
                Some(p) => session_at(p.3, p.4),
                None => SessionType::Normal,
            },
    {
        match parts {
            Some(p) => {
                let (h, m) = (p.3, p.4);
                if h == 10 && m == 15 {
                    SessionType::Close1015
                } else if h == 11 && m == 30 {
                    SessionType::Close1130
                } else if h == 15 && m == 0 {
                    SessionType::Close1500
                } else if h == 23 && (m == 0 || m == 30) {
                    SessionType::NightClose2300
                } else if h == 1 && m == 0 {
                    SessionType::NightClose0100
                } else if h == 2 && m == 30 {
                    SessionType::NightClose0230
                } else {
                    SessionType::Normal
                }
            },
            None => SessionType::Normal,
        }
    }

    /// Classifies a bar by its `%Y-%m-%d %H:%M:%S` timestamp; the symbol plays no part.
    pub fn classify(_symbol: &str, bar_ts: &str) -> (t: Self)
        ensures
            t == match chrono_parse_datetime(bar_ts@) {
                Some(p) => session_at(p.3, p.4),
                None => SessionType::Normal,
            },
    {
        Self::classify_parts(parse_datetime(bar_ts))
    }
}

/// Every session type survives the round trip through its stored name.
pub proof fn law_session_name_round_trip(t: SessionType)
    ensures
        session_from_name(session_name(t)) == t,
{
    reveal_strlit("normal");
    reveal_strlit("10:15");
    reveal_strlit("11:30");
    reveal_strlit("15:00");
    reveal_strlit("night_2300");
    reveal_strlit("night_0100");
    reveal_strlit("night_0230");
    reveal_strlit("night_other");
    match t {
        SessionType::Normal => {},
        SessionType::Close1015 => {
            assert("10:15"@.len() != "normal"@.len());
        },
        SessionType::Close1130 => {
            assert("11:30"@.len() != "normal"@.len());
            assert("11:30"@[1] != "10:15"@[1]);
        },
        SessionType::Close1500 => {
            assert("15:00"@.len() != "normal"@.len());
            assert("15:00"@[1] != "10:15"@[1]);
            assert("15:00"@[1] != "11:30"@[1]);
        },
        SessionType::NightClose2300 => {
            assert("night_2300"@.len() != "normal"@.len());
            assert("night_2300"@.len() != "10:15"@.len());
        },
        SessionType::NightClose0100 => {
            assert("night_0100"@.len() != "normal"@.len());
            assert("night_0100"@.len() != "10:15"@.len());
            assert("night_0100"@[6] != "night_2300"@[6]);
        },
        SessionType::NightClose0230 => {
            assert("night_0230"@.len() != "normal"@.len());
            assert("night_0230"@.len() != "10:15"@.len());
            assert("night_0230"@[6] != "night_2300"@[6]);
            assert("night_0230"@[7] != "night_0100"@[7]);
        },
        SessionType::NightCloseOther => {
            assert("night_other"@.len() != "normal"@.len());
            assert("night_other"@.len() != "10:15"@.len());
            assert("night_other"@[6] != "night_2300"@[6]);
            assert("night_other"@[6] != "night_0100"@[6]);
            assert("night_other"@[6] != "night_0230"@[6]);
        },
    }
}

/// The persisted summary of one bar's finality trial.
#[derive(Debug, Clone)]
pub struct FinalityTrial {
    pub id: Option<i64>,
    pub symbol: String,
    pub bar_ts: String,
    pub session_type: String,
    pub first_seen_at: Option<String>,
    pub first_seen_delay_ms: Option<i64>,
    pub candidate_final_at: Option<String>,
    pub candidate_delay_ms: Option<i64>,
    pub revision_count: i32,
    pub last_revision_at: Option<String>,
    pub last_revision_delay_ms: Option<i64>,
    pub false_final: bool,
    pub candidate_fingerprint: Option<String>,
    pub final_fingerprint: Option<String>,
    pub probe_count: i32,
    pub completed: bool,
    pub created_at: String,
    pub updated_at: String,
}

} // verus!
