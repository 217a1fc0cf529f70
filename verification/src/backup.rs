//! Database snapshots: the names of the snapshot files, the statement that writes a
//! consistent copy, the integrity verdict, and the SHA-256 fingerprint of the
//! compressed snapshot in lower-case hexadecimal.
use vstd::prelude::*;

use crate::text::{chars_of, eq_lit, push_chars, push_str, string_from_chars};

verus! {

/// A finished snapshot: the compressed file, its SHA-256 in hexadecimal and its size.
#[derive(Debug)]
pub struct SnapshotResult {
    pub file_path: std::path::PathBuf,
    pub sha256: String,
    pub size_bytes: u64,
}

/// The file names of a snapshot with identifier `id`: the raw copy and its gzip.
pub open spec fn snapshot_names(id: Seq<char>) -> (Seq<char>, Seq<char>) {
    ("ntrend-snapshot-"@ + id + ".sqlite"@, "ntrend-snapshot-"@ + id + ".sqlite.gz"@)
}

/// The raw and compressed file names of a snapshot.
pub fn snapshot_file_names(id: &str) -> (r: (String, String))
    ensures
        (r.0@, r.1@) == snapshot_names(id@),
{
    let mut raw: Vec<char> = Vec::new();
    push_str(&mut raw, "ntrend-snapshot-");
    push_str(&mut raw, id);
    push_str(&mut raw, ".sqlite");
    let mut gz: Vec<char> = Vec::new();
    push_chars(&mut gz, raw.as_slice());
    push_str(&mut gz, ".gz");
    proof {
        assert(gz@ =~= "ntrend-snapshot-"@ + id@ + ".sqlite.gz"@) by {
            reveal_strlit(".sqlite");
            reveal_strlit(".gz");
            reveal_strlit(".sqlite.gz");
        }
    }
    (string_from_chars(raw.as_slice()), string_from_chars(gz.as_slice()))
}

/// `s` with every backslash turned into a slash.
pub open spec fn forward_slashes(s: Seq<char>) -> Seq<char> {
    s.map_values(|c: char| if c == '\\' { '/' } else { c })
}

/// The statement that writes a consistent copy of the database to `raw_path` (with
/// forward slashes).
pub open spec fn vacuum_statement(raw_path: Seq<char>) -> Seq<char> {
    "VACUUM INTO '"@ + forward_slashes(raw_path) + "'"@
}

/// The SQL that writes the snapshot copy.
pub fn vacuum_into_sql(raw_path: &str) -> (r: String)
    ensures
        r@ == vacuum_statement(raw_path@),
{
    let cs = chars_of(raw_path);
    let mut fixed: Vec<char> = Vec::new();
    let mut i: usize = 0;
    while i < cs.len()
        invariant
            i <= cs.len(),
            fixed@ == forward_slashes(cs@.subrange(0, i as int)),
        decreases cs.len() - i,
    {
        let c = cs[i];
        fixed.push(if c == '\\' { '/' } else { c });
        assert(cs@.subrange(0, i as int + 1) =~= cs@.subrange(0, i as int).push(c));
        assert(fixed@ =~= forward_slashes(cs@.subrange(0, i as int + 1)));
        i = i + 1;
    }
    assert(cs@.subrange(0, cs@.len() as int) =~= cs@);
    let mut v: Vec<char> = Vec::new();
    push_str(&mut v, "VACUUM INTO '");
    push_chars(&mut v, fixed.as_slice());
    push_str(&mut v, "'");
    string_from_chars(v.as_slice())
}

/// The integrity check passed: its first column read `ok`.
pub fn integrity_ok(first_column: Option<&str>) -> (r: bool)
    ensures
        r == (first_column matches Some(s) && s@ == "ok"@),
{
    match first_column {
        Some(s) => {
            let cs = chars_of(s);
            eq_lit(cs.as_slice(), "ok")
        },
        None => false,
    }
}

/// The lower-case hexadecimal digit of a value below 16.
pub open spec fn hex_digit(d: int) -> char {
    if d < 10 {
        (('0' as int) + d) as char
    } else {
        (('a' as int) + d - 10) as char
    }
}

/// Bytes in lower-case hexadecimal, two digits each.
pub open spec fn hex_lower(b: Seq<u8>) -> Seq<char>
    decreases b.len(),
{
    if b.len() == 0 {
        Seq::empty()
    } else {
        hex_lower(b.drop_last()) + seq![hex_digit(b.last() as int / 16), hex_digit(b.last() as int % 16)]
    }
}

fn hex_char(d: u8) -> (c: char)
    requires
        d < 16,
    ensures
        c == hex_digit(d as int),
{
    if d < 10 {
        (48u8 + d) as char
    } else {
        (87u8 + d) as char
    }
}

/// Formats bytes as `{:x}` does a digest: lower-case hexadecimal, two digits a byte.
pub fn to_hex(b: &[u8]) -> (s: String)
    ensures
        s@ == hex_lower(b@),
{
    let mut v: Vec<char> = Vec::new();
    let mut i: usize = 0;
    while i < b.len()
        invariant
            i <= b.len(),
            v@ == hex_lower(b@.subrange(0, i as int)),
        decreases b.len() - i,
    {
        let x = b[i];
        let ghost before = v@;
        v.push(hex_char(x / 16));
        v.push(hex_char(x % 16));
        proof {
            let t = b@.subrange(0, i as int + 1);
            assert(t.drop_last() =~= b@.subrange(0, i as int));
            assert(t.last() == x);
            assert(v@ =~= before + seq![hex_digit(x as int / 16), hex_digit(x as int % 16)]);
        }
        i = i + 1;
    }
    assert(b@.subrange(0, b@.len() as int) =~= b@);
    string_from_chars(v.as_slice())
}

/// The SHA-256 digest of bytes, as `sha2::Sha256` computes it.
pub uninterp spec fn sha256_of(bytes: Seq<u8>) -> Seq<u8>;

/// Hashes bytes with `sha2::Sha256` (`Sha256::digest`). The contract names the digest
/// and claims its length, 32 bytes.
#[verifier::external_body]
fn sha256_digest(bytes: &[u8]) -> (d: Vec<u8>)
    ensures
        d@ == sha256_of(bytes@),
        d@.len() == 32,
{
    <sha2::Sha256 as sha2::Digest>::digest(bytes).to_vec()
}

/// The SHA-256 fingerprint of a snapshot's bytes, in lower-case hexadecimal.
pub fn sha256_hex(bytes: &[u8]) -> (s: String)
    ensures
        s@ == hex_lower(sha256_of(bytes@)),
        s@.len() == 64,
{
    let d = sha256_digest(bytes);
    proof {
        lemma_hex_len(d@);
    }
    to_hex(d.as_slice())
}

proof fn lemma_hex_len(b: Seq<u8>)
    ensures
        hex_lower(b).len() == 2 * b.len(),
    decreases b.len(),
{
    if b.len() > 0 {
        lemma_hex_len(b.drop_last());
    }
}

} // verus!
