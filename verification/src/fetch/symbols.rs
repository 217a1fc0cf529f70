//! Futures symbol discovery helpers: quote-name extraction, node bases and the
//! query URLs of the Sina node table.
use vstd::prelude::*;

use vstd::string::StringSliceAdditionalSpecFns;
use crate::text::{chars_of, owned, push_chars, push_str, split_chars, split_either, str_eq, string_from_chars, trim, trim_chars, views};

verus! {

/// One futures contract.
#[derive(Debug, Clone)]
pub struct FuturesSymbol {
    pub code: String,
    pub name: String,
    pub variety: String,
    pub exchange: String,
    pub node: String,
}

/// The bases to query for a node: its own base when it has a non-empty one, then
/// `futures` unless that was already the node's base.
pub open spec fn bases_for(base: Option<Seq<char>>) -> Seq<Seq<char>> {
    let own: Seq<Seq<char>> = match base {
        Some(v) => if v.len() > 0 {
            seq![v]
        } else {
            Seq::empty()
        },
        None => Seq::empty(),
    };
    if own.contains("futures"@) {
        own
    } else {
        own.push("futures"@)
    }
}

/// The bases to query for a node (see `bases_for`).
pub fn node_bases(base: &Option<String>) -> (bases: Vec<String>)
    ensures
        views(bases@) == bases_for(crate::text::opt_view(*base)),
{
    let mut bases: Vec<String> = Vec::new();
    match base {
        Some(value) => {
            if !value.as_str().is_empty() {
                bases.push(value.clone());
            }
        },
        None => {},
    }
    proof {
        if let Some(v) = base {
            if v@.len() > 0 {
                assert(views(bases@) =~= seq![v@]);
            } else {
                assert(views(bases@) =~= Seq::<Seq<char>>::empty());
            }
        } else {
            assert(views(bases@) =~= Seq::<Seq<char>>::empty());
        }
    }
    let ghost own = views(bases@);
    let mut has_futures = false;
    let mut i: usize = 0;
    while i < bases.len()
        invariant
            i <= bases@.len(),
            own == views(bases@),
            has_futures == exists|j: int| 0 <= j < i && bases@[j]@ == "futures"@,
        decreases bases@.len() - i,
    {
        if str_eq(bases[i].as_str(), "futures") {
            has_futures = true;
        }
        i += 1;
    }
    proof {
        if has_futures {
            let j = choose|j: int| 0 <= j < bases@.len() && bases@[j]@ == "futures"@;
            assert(own[j] == "futures"@);
        } else {
            assert forall|j: int| 0 <= j < own.len() implies own[j] != "futures"@ by {
                assert(own[j] == bases@[j]@);
            }
        }
    }
    if !has_futures {
        bases.push(owned("futures"));
        assert(views(bases@) =~= own.push("futures"@));
    }
    bases
}

/// The non-empty trimmed fields among `pieces`, in order.
pub open spec fn nonempty_fields(pieces: Seq<Seq<char>>) -> Seq<Seq<char>>
    decreases pieces.len(),
{
    if pieces.len() == 0 {
        Seq::empty()
    } else {
        let prev = nonempty_fields(pieces.drop_last());
        if trim(pieces.last()).len() > 0 {
            prev.push(trim(pieces.last()))
        } else {
            prev
        }
    }
}

/// The comma-separated, trimmed, non-empty fields of a quote body.
pub open spec fn quote_fields(body: Seq<char>) -> Seq<Seq<char>> {
    nonempty_fields(split_either(body, ',', ','))
}

/// Some character of `s` is not ASCII.
pub open spec fn has_non_ascii(s: Seq<char>) -> bool {
    exists|i: int| 0 <= i < s.len() && (s[i] as u32) >= 128
}

/// The name in a quote's fields: the first field when it is not a number (ordinary
/// contracts, such as `PVC2609`), otherwise the first field holding a non-ASCII
/// character (index futures, whose name comes last).
#[verifier::opaque]
pub open spec fn quote_name(fields: Seq<Seq<char>>, first_is_number: bool) -> Option<Seq<char>> {
    if fields.len() == 0 {
        None
    } else if !first_is_number {
        Some(fields[0])
    } else if exists|i: int| 0 <= i < fields.len() && has_non_ascii(fields[i]) {
        Some(fields[choose|i: int| 0 <= i < fields.len() && has_non_ascii(fields[i]) && forall|j: int| 0 <= j < i ==> !has_non_ascii(fields[j])])
    } else {
        None
    }
}

fn has_non_ascii_exec(s: &[char]) -> (b: bool)
    ensures
        b == has_non_ascii(s@),
{
    let mut i: usize = 0;
    while i < s.len()
        invariant
            i <= s@.len(),
            forall|j: int| 0 <= j < i ==> (s@[j] as u32) < 128,
        decreases s@.len() - i,
    {
        if s[i] as u32 >= 128 {
            return true;
        }
        i += 1;
    }
    false
}

/// Picks the name among a quote's fields (see `quote_name`), given whether the first
/// field reads as a number.
pub fn choose_quote_name(fields: &Vec<Vec<char>>, first_is_number: bool) -> (r: Option<String>)
    ensures
        r matches Some(s) ==> quote_name(fields@.map_values(|v: Vec<char>| v@), first_is_number) == Some(s@),
        r is None ==> quote_name(fields@.map_values(|v: Vec<char>| v@), first_is_number) is None,
{
    reveal(quote_name);
    let ghost fs = fields@.map_values(|v: Vec<char>| v@);
    if fields.len() == 0 {
        return None;
    }
    if !first_is_number {
        return Some(string_from_chars(fields[0].as_slice()));
    }
    let mut i: usize = 0;
    while i < fields.len()
        invariant
            i <= fields@.len(),
            fields@.len() > 0,
            first_is_number,
            fs == fields@.map_values(|v: Vec<char>| v@),
            forall|j: int| 0 <= j < i ==> !has_non_ascii(fs[j]),
        decreases fields@.len() - i,
    {
        if has_non_ascii_exec(fields[i].as_slice()) {
            proof {
                reveal(quote_name);
                assert(fs[i as int] == fields@[i as int]@);
                assert(has_non_ascii(fs[i as int]));
                assert(0 <= i < fs.len());
                let w = choose|w: int| 0 <= w < fs.len() && has_non_ascii(fs[w]) && forall|j: int| 0 <= j < w ==> !has_non_ascii(fs[j]);
                assert(w == i as int) by {
                    if w > i {
                        assert(has_non_ascii(fs[i as int]));
                    }
                }
            }
            return Some(string_from_chars(fields[i].as_slice()));
        }
        assert(fs[i as int] == fields@[i as int]@);
        i += 1;
    }
    None
}

/// The name carried by a quote body (see `quote_name` and `quote_fields`).
pub fn extract_quote_name(body: &str) -> (r: Option<String>)
    ensures
        ({
            let fs = quote_fields(body@);
            let q = if fs.len() > 0 {
                quote_name(fs, crate::num::is_float_literal(fs[0]))
            } else {
                None
            };
            &&& r matches Some(s) ==> q == Some(s@)
            &&& r is None ==> q is None
        }),
{
    let all = chars_of(body);
    let pieces = split_chars(all.as_slice(), ',', ',');
    let ghost ps = split_either(body@, ',', ',');
    let mut fields: Vec<Vec<char>> = Vec::new();
    let mut k: usize = 0;
    while k < pieces.len()
        invariant
            k <= pieces@.len(),
            pieces@.len() == ps.len(),
            forall|j: int| 0 <= j < pieces@.len() ==> #[trigger] pieces@[j]@ == ps[j],
            fields@.map_values(|v: Vec<char>| v@) == nonempty_fields(ps.subrange(0, k as int)),
        decreases pieces@.len() - k,
    {
        let t = trim_chars(pieces[k].as_slice());
        let ghost prev = fields@.map_values(|v: Vec<char>| v@);
        proof {
            let sub = ps.subrange(0, k + 1);
            assert(sub.drop_last() =~= ps.subrange(0, k as int));
            assert(sub.last() == ps[k as int]);
        }
        if t.len() > 0 {
            fields.push(t);
            assert(fields@.map_values(|v: Vec<char>| v@) =~= prev.push(t@));
        }
        k += 1;
    }
    proof {
        assert(ps.subrange(0, pieces@.len() as int) =~= ps);
    }
    if fields.len() == 0 {
        return None;
    }
    let first_is_number = crate::num::parses_as_float(fields[0].as_slice());
    proof {
        assert(fields@.map_values(|v: Vec<char>| v@)[0] == fields@[0]@);
    }
    choose_quote_name(&fields, first_is_number)
}

/// An ASCII letter or digit: the bytes that `percent_encoding::NON_ALPHANUMERIC` leaves
/// as they are.
pub open spec fn is_alnum_byte(b: u8) -> bool {
    (48 <= b && b <= 57) || (65 <= b && b <= 90) || (97 <= b && b <= 122)
}

/// The upper-case hexadecimal digit for `n < 16`.
pub open spec fn hex_digit(n: int) -> char {
    if n < 10 {
        ((n + 48) as u32) as char
    } else {
        ((n + 55) as u32) as char
    }
}

/// Percent-encoding with the `NON_ALPHANUMERIC` set: ASCII letters and digits stay,
/// every other byte becomes `%` and two upper-case hexadecimal digits.
pub open spec fn percent_encoded(bytes: Seq<u8>) -> Seq<char>
    decreases bytes.len(),
{
    if bytes.len() == 0 {
        Seq::empty()
    } else {
        let b = bytes.last();
        percent_encoded(bytes.drop_last()) + if is_alnum_byte(b) {
            seq![(b as u32) as char]
        } else {
            seq!['%', hex_digit((b / 16) as int), hex_digit((b % 16) as int)]
        }
    }
}

fn hex_char(n: u8) -> (c: char)
    requires
        n < 16,
    ensures
        c == hex_digit(n as int),
{
    if n < 10 {
        (n + 48) as char
    } else {
        (n + 55) as char
    }
}

/// Percent-encodes bytes (see `percent_encoded`).
pub fn percent_encode_bytes(bytes: &[u8]) -> (out: Vec<char>)
    ensures
        out@ == percent_encoded(bytes@),
{
    let mut out: Vec<char> = Vec::new();
    let mut i: usize = 0;
    while i < bytes.len()
        invariant
            i <= bytes@.len(),
            out@ == percent_encoded(bytes@.subrange(0, i as int)),
        decreases bytes@.len() - i,
    {
        let b = bytes[i];
        let ghost before = out@;
        if (48 <= b && b <= 57) || (65 <= b && b <= 90) || (97 <= b && b <= 122) {
            out.push(b as char);
        } else {
            out.push('%');
            out.push(hex_char(b / 16));
            out.push(hex_char(b % 16));
        }
        proof {
            let sub = bytes@.subrange(0, i + 1);
            assert(sub.drop_last() =~= bytes@.subrange(0, i as int));
            assert(sub.last() == b);
            if is_alnum_byte(b) {
                assert(out@ =~= before + seq![(b as u32) as char]);
            } else {
                assert(out@ =~= before + seq!['%', hex_digit((b / 16) as int), hex_digit((b % 16) as int)]);
            }
        }
        i += 1;
    }
    assert(bytes@.subrange(0, bytes@.len() as int) =~= bytes@);
    out
}

/// What `encoding_rs::GBK.encode` produces for the text.
pub uninterp spec fn gbk_encoded(s: Seq<char>) -> Seq<u8>;

/// Encodes text as GBK with `encoding_rs::GBK.encode` (unmappable characters become
/// numeric character references, as that function does); the contract claims only
/// that the bytes are a function of the text.
#[verifier::external_body]
fn gbk_encode(s: &str) -> (b: Vec<u8>)
    ensures
        b@ == gbk_encoded(s@),
{
    encoding_rs::GBK.encode(s).0.into_owned()
}

/// A query value as the node table expects it: GBK bytes, percent-encoded.
pub fn encode_gbk_query(value: &str) -> (out: String)
    ensures
        out@ == percent_encoded(gbk_encoded(value@)),
{
    let bytes = gbk_encode(value);
    let enc = percent_encode_bytes(bytes.as_slice());
    string_from_chars(enc.as_slice())
}

/// The quote-list query for one node and base, `num` rows.
pub open spec fn hq_url(num: Seq<char>, node: Seq<char>, base: Seq<char>) -> Seq<char> {
    "http://vip.stock.finance.sina.com.cn/quotes_service/api/json_v2.php/Market_Center.getHQFuturesData?page=1&num="@
        + num + "&sort=position&asc=0&node="@ + node + "&base="@ + base
}

/// The query URLs for a node: GBK-encoded first, then UTF-8-encoded when that differs.
pub open spec fn hq_urls(num: Seq<char>, node: Seq<char>, base: Seq<char>, utf8: Seq<u8>) -> Seq<Seq<char>> {
    let gbk = percent_encoded(gbk_encoded(node));
    let u = percent_encoded(utf8);
    let b = percent_encoded(gbk_encoded(base));
    if gbk == u {
        seq![hq_url(num, gbk, b)]
    } else {
        seq![hq_url(num, gbk, b), hq_url(num, u, b)]
    }
}

fn build_hq_url(num: &str, node: &[char], base: &[char]) -> (out: String)
    ensures
        out@ == hq_url(num@, node@, base@),
{
    let mut v: Vec<char> = Vec::new();
    push_str(&mut v, "http://vip.stock.finance.sina.com.cn/quotes_service/api/json_v2.php/Market_Center.getHQFuturesData?page=1&num=");
    push_str(&mut v, num);
    push_str(&mut v, "&sort=position&asc=0&node=");
    push_chars(&mut v, node);
    push_str(&mut v, "&base=");
    push_chars(&mut v, base);
    string_from_chars(v.as_slice())
}

fn urls_for(num: &str, node: &str, base: &str) -> (urls: Vec<String>)
    ensures
        views(urls@) == hq_urls(num@, node@, base@, node.spec_bytes()),
{
    let gbk = percent_encode_bytes(gbk_encode(node).as_slice());
    let utf8 = percent_encode_bytes(node.as_bytes());
    let b = percent_encode_bytes(gbk_encode(base).as_slice());
    let mut urls: Vec<String> = Vec::new();
    urls.push(build_hq_url(num, gbk.as_slice(), b.as_slice()));
    if !crate::text::seq_eq(gbk.as_slice(), utf8.as_slice()) {
        urls.push(build_hq_url(num, utf8.as_slice(), b.as_slice()));
        assert(views(urls@) =~= seq![hq_url(num@, gbk@, b@), hq_url(num@, utf8@, b@)]);
    } else {
        assert(views(urls@) =~= seq![hq_url(num@, gbk@, b@)]);
    }
    urls
}

/// The first-row query URLs of a node (see `hq_urls`).
pub fn hq_data_urls(node: &str, base: &str) -> (urls: Vec<String>)
    ensures
        views(urls@) == hq_urls("1"@, node@, base@, node.spec_bytes()),
{
    urls_for("1", node, base)
}

/// The all-rows (1000) query URLs of a node (see `hq_urls`).
pub fn hq_all_data_urls(node: &str, base: &str) -> (urls: Vec<String>)
    ensures
        views(urls@) == hq_urls("1000"@, node@, base@, node.spec_bytes()),
{
    urls_for("1000", node, base)
}

} // verus!
