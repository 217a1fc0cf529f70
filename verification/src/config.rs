//! Application settings: their defaults, and the migration of settings kept by older
//! versions as key/value text pairs.
use vstd::prelude::*;

use crate::num::{parse_int, parse_int_chars, parse_u64};
use crate::text::{chars_of, eq_lit, owned, seq_eq};

verus! {

/// The timeframes offered, in display order.
pub open spec fn default_timeframe_names() -> Seq<Seq<char>> {
    seq!["5m"@, "15m"@, "30m"@, "60m"@, "120m"@, "240m"@, "1d"@]
}

/// The timeframes offered, in display order.
pub fn default_timeframes() -> (v: Vec<String>)
    ensures
        crate::text::views(v@) == default_timeframe_names(),
{
    let v = vec![owned("5m"), owned("15m"), owned("30m"), owned("60m"), owned("120m"), owned("240m"), owned("1d")];
    assert(crate::text::views(v@) =~= default_timeframe_names());
    v
}

/// The keys of older versions' settings that belong to the configuration (the others
/// are runtime state and stay where they are).
pub open spec fn legacy_key_names() -> Seq<Seq<char>> {
    seq![
        "refresh_interval_secs"@,
        "scan_interval_secs"@,
        "trading_only"@,
        "request_interval_ms"@,
        "minutely_budget"@,
        "backfill_count"@,
        "incremental_count"@,
        "auto_start_scheduler"@,
        "log_level"@,
        "email.enabled"@,
        "email.to"@,
        "email.from"@,
        "email.smtp_host"@,
        "email.smtp_port"@,
        "email.smtp_user"@,
        "email.smtp_password"@,
    ]
}

/// The configuration keys of older versions' settings.
pub fn legacy_keys() -> (v: Vec<String>)
    ensures
        crate::text::views(v@) == legacy_key_names(),
{
    let v = vec![
        owned("refresh_interval_secs"),
        owned("scan_interval_secs"),
        owned("trading_only"),
        owned("request_interval_ms"),
        owned("minutely_budget"),
        owned("backfill_count"),
        owned("incremental_count"),
        owned("auto_start_scheduler"),
        owned("log_level"),
        owned("email.enabled"),
        owned("email.to"),
        owned("email.from"),
        owned("email.smtp_host"),
        owned("email.smtp_port"),
        owned("email.smtp_user"),
        owned("email.smtp_password"),
    ];
    assert(crate::text::views(v@) =~= legacy_key_names());
    v
}

/// Application switches.
#[derive(Debug, Clone)]
pub struct AppConfig {
    /// Start the scheduled tasks when the application starts.
    pub auto_start_scheduler: bool,
    /// Version of the signal analysis: `1` keeps the original logic.
    pub logic_version: String,
}

/// Fetching limits and backfill sizes.
#[derive(Debug, Clone)]
pub struct FetchConfig {
    pub request_interval_ms: u64,
    pub minutely_budget: usize,
    pub backfill_count: usize,
    pub incremental_count: usize,
}

/// Realtime quote polling.
#[derive(Debug, Clone)]
pub struct QuoteConfig {
    pub poll_interval_ms: u64,
    pub request_interval_ms: u64,
    pub minutely_budget: usize,
}

/// Logging.
#[derive(Debug, Clone)]
pub struct LogConfig {
    /// trace, debug, info, warn or error.
    pub level: String,
}

/// Interface details.
#[derive(Debug, Clone)]
pub struct UiConfig {
    pub flash_ms: u64,
    pub breathe_hold_ms: u64,
    pub min_bar_spacing: u64,
    pub chart_display_bars: u64,
    pub chart_right_gap: u64,
    /// The enabled timeframes (empty means all).
    pub timeframes: Vec<String>,
    /// The group table open last (`None` for all symbols).
    pub last_group_id: Option<i64>,
}

/// The default analysis version.
pub fn default_logic_version() -> (s: String)
    ensures
        s@ == "1"@,
{
    owned("1")
}

impl Default for AppConfig {
    fn default() -> (c: Self)
        ensures
            c.auto_start_scheduler,
            c.logic_version@ == "1"@,
    {
        Self { auto_start_scheduler: true, logic_version: default_logic_version() }
    }
}

impl Default for FetchConfig {
    fn default() -> (c: Self)
        ensures
            c.request_interval_ms == 400 && c.minutely_budget == 60 && c.backfill_count == 1000 && c.incremental_count == 10,
    {
        Self { request_interval_ms: 400, minutely_budget: 60, backfill_count: 1000, incremental_count: 10 }
    }
}

impl Default for QuoteConfig {
    fn default() -> (c: Self)
        ensures
            c.poll_interval_ms == 3000 && c.request_interval_ms == 200 && c.minutely_budget == 120,
    {
        Self { poll_interval_ms: 3000, request_interval_ms: 200, minutely_budget: 120 }
    }
}

impl Default for LogConfig {
    fn default() -> (c: Self)
        ensures
            c.level@ == "info"@,
    {
        Self { level: owned("info") }
    }
}

impl Default for UiConfig {
    fn default() -> (c: Self)
        ensures
            c.flash_ms == 900 && c.breathe_hold_ms == 5000 && c.min_bar_spacing == 8 && c.chart_display_bars == 140
                && c.chart_right_gap == 10,
            crate::text::views(c.timeframes@) == default_timeframe_names(),
            c.last_group_id is None,
    {
        Self {
            flash_ms: 900,
            breathe_hold_ms: 5000,
            min_bar_spacing: 8,
            chart_display_bars: 140,
            chart_right_gap: 10,
            timeframes: default_timeframes(),
            last_group_id: None,
        }
    }
}

/// The value stored under `key` among key/value pairs (the first pair with that key).
pub open spec fn lookup(pairs: Seq<(Seq<char>, Seq<char>)>, key: Seq<char>) -> Option<Seq<char>>
    decreases pairs.len(),
{
    if pairs.len() == 0 {
        None
    } else if pairs[0].0 == key {
        Some(pairs[0].1)
    } else {
        lookup(pairs.drop_first(), key)
    }
}

/// The text of stored pairs.
pub open spec fn pair_views(pairs: Seq<(String, String)>) -> Seq<(Seq<char>, Seq<char>)> {
    pairs.map_values(|p: (String, String)| (p.0@, p.1@))
}

fn find_value(pairs: &[(String, String)], key: &str) -> (r: Option<Vec<char>>)
    ensures
        match r {
            Some(v) => lookup(pair_views(pairs@), key@) == Some(v@),
            None => lookup(pair_views(pairs@), key@) is None,
        },
{
    let k = chars_of(key);
    let ghost all = pair_views(pairs@);
    assert(all.subrange(0, all.len() as int) =~= all);
    let mut i: usize = 0;
    while i < pairs.len()
        invariant
            i <= pairs.len(),
            k@ == key@,
            all == pair_views(pairs@),
            lookup(all, key@) == lookup(all.subrange(i as int, all.len() as int), key@),
        decreases pairs.len() - i,
    {
        let c = chars_of(pairs[i].0.as_str());
        let ghost rest = all.subrange(i as int, all.len() as int);
        assert(rest[0] == (pairs@[i as int].0@, pairs@[i as int].1@));
        if seq_eq(c.as_slice(), k.as_slice()) {
            return Some(chars_of(pairs[i].1.as_str()));
        }
        assert(rest.drop_first() =~= all.subrange(i as int + 1, all.len() as int));
        i = i + 1;
    }
    None
}

/// What `str::parse::<bool>` reads: exactly `true` or `false`.
pub open spec fn parse_bool(s: Seq<char>) -> Option<bool> {
    if s == "true"@ {
        Some(true)
    } else if s == "false"@ {
        Some(false)
    } else {
        None
    }
}

/// A stored flag, or the default where it is missing or does not read.
pub open spec fn stored_bool(pairs: Seq<(Seq<char>, Seq<char>)>, key: Seq<char>, default: bool) -> bool {
    match lookup(pairs, key) {
        Some(v) => match parse_bool(v) {
            Some(b) => b,
            None => default,
        },
        None => default,
    }
}

/// A stored unsigned number in `0..=hi`, or the default where it is missing or does
/// not read.
pub open spec fn stored_uint(pairs: Seq<(Seq<char>, Seq<char>)>, key: Seq<char>, hi: int, default: int) -> int {
    match lookup(pairs, key) {
        Some(v) => match parse_int(v, false, 0, hi) {
            Some(n) => n,
            None => default,
        },
        None => default,
    }
}

/// A stored text, or the default where it is missing.
pub open spec fn stored_text(pairs: Seq<(Seq<char>, Seq<char>)>, key: Seq<char>, default: Seq<char>) -> Seq<char> {
    match lookup(pairs, key) {
        Some(v) => v,
        None => default,
    }
}

/// A stored flag (see `stored_bool`).
pub fn get_bool(pairs: &[(String, String)], key: &str, default: bool) -> (b: bool)
    ensures
        b == stored_bool(pair_views(pairs@), key@, default),
{
    match find_value(pairs, key) {
        Some(v) => {
            if eq_lit(v.as_slice(), "true") {
                true
            } else if eq_lit(v.as_slice(), "false") {
                false
            } else {
                default
            }
        },
        None => default,
    }
}

/// A stored `u64` (see `stored_uint`).
pub fn get_u64(pairs: &[(String, String)], key: &str, default: u64) -> (n: u64)
    ensures
        n == stored_uint(pair_views(pairs@), key@, u64::MAX as int, default as int),
{
    match find_value(pairs, key) {
        Some(v) => match parse_u64(v.as_slice()) {
            Some(n) => n,
            None => default,
        },
        None => default,
    }
}

/// A stored `usize` (see `stored_uint`).
pub fn get_usize(pairs: &[(String, String)], key: &str, default: usize) -> (n: usize)
    ensures
        n == stored_uint(pair_views(pairs@), key@, usize::MAX as int, default as int),
{
    match find_value(pairs, key) {
        Some(v) => match parse_int_chars(v.as_slice(), false, 0, usize::MAX as i128) {
            Some(n) => n as usize,
            None => default,
        },
        None => default,
    }
}

/// A stored `u16` (see `stored_uint`).
pub fn get_u16(pairs: &[(String, String)], key: &str, default: u16) -> (n: u16)
    ensures
        n == stored_uint(pair_views(pairs@), key@, u16::MAX as int, default as int),
{
    match find_value(pairs, key) {
        Some(v) => match crate::num::parse_u16(v.as_slice()) {
            Some(n) => n,
            None => default,
        },
        None => default,
    }
}

/// A stored text (see `stored_text`).
pub fn get_str(pairs: &[(String, String)], key: &str, default: &str) -> (s: String)
    ensures
        s@ == stored_text(pair_views(pairs@), key@, default@),
{
    match find_value(pairs, key) {
        Some(v) => crate::text::string_from_chars(v.as_slice()),
        None => owned(default),
    }
}

impl AppConfig {
    /// The switches migrated from older settings: the analysis version is always the
    /// default one.
    pub fn from_legacy(pairs: &[(String, String)]) -> (c: Self)
        ensures
            c.auto_start_scheduler == stored_bool(pair_views(pairs@), "auto_start_scheduler"@, true),
            c.logic_version@ == "1"@,
    {
        Self { auto_start_scheduler: get_bool(pairs, "auto_start_scheduler", true), logic_version: default_logic_version() }
    }
}

impl FetchConfig {
    /// The fetching limits migrated from older settings, defaults where missing.
    pub fn from_legacy(pairs: &[(String, String)]) -> (c: Self)
        ensures
            c.request_interval_ms == stored_uint(pair_views(pairs@), "request_interval_ms"@, u64::MAX as int, 400),
            c.minutely_budget == stored_uint(pair_views(pairs@), "minutely_budget"@, usize::MAX as int, 60),
            c.backfill_count == stored_uint(pair_views(pairs@), "backfill_count"@, usize::MAX as int, 1000),
            c.incremental_count == stored_uint(pair_views(pairs@), "incremental_count"@, usize::MAX as int, 10),
    {
        Self {
            request_interval_ms: get_u64(pairs, "request_interval_ms", 400),
            minutely_budget: get_usize(pairs, "minutely_budget", 60),
            backfill_count: get_usize(pairs, "backfill_count", 1000),
            incremental_count: get_usize(pairs, "incremental_count", 10),
        }
    }
}

impl LogConfig {
    /// The log level migrated from older settings (`log_level`), `info` where missing.
    pub fn from_legacy(pairs: &[(String, String)]) -> (c: Self)
        ensures
            c.level@ == stored_text(pair_views(pairs@), "log_level"@, "info"@),
    {
        Self { level: get_str(pairs, "log_level", "info") }
    }
}

} // verus!
