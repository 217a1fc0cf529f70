//! The TianQin (TqSdk) local HTTP bridge: its endpoints, its health verdict, and the
//! rule that the last row of a TianQin series is the bar still in progress.
use vstd::prelude::*;

use crate::num::{decimal, fmt_u64};
use crate::text::{chars_of, push_chars, push_str, string_from_chars, strip_trailing, strip_trailing_chars};

verus! {

/// The bridge's answer to a kline subscription.
#[derive(Debug, Clone)]
pub struct SubscribeKlinesResponse {
    pub stream_id: String,
    pub subscribed: Vec<String>,
    pub failed: Vec<String>,
}

/// Why a bar is known to be closed.
#[derive(Debug, Clone, Copy, PartialEq, Eq, Structural)]
pub enum BarCloseProof {
    /// The next bar has started.
    NextBarStarted,
    /// The session is not trading.
    SessionNotTrading,
}

impl BarCloseProof {
    /// The wire name (`next_bar_started`, `session_not_trading`).
    pub fn as_str(self) -> (s: &'static str)
        ensures
            s@ == (match self {
                BarCloseProof::NextBarStarted => "next_bar_started"@,
                BarCloseProof::SessionNotTrading => "session_not_trading"@,
            }),
    {
        match self {
            BarCloseProof::NextBarStarted => "next_bar_started",
            BarCloseProof::SessionNotTrading => "session_not_trading",
        }
    }
}

/// The bridge's base URL: the given one without trailing slashes.
pub fn bridge_base_url(base_url: &str) -> (r: String)
    ensures
        r@ == strip_trailing(base_url@, '/'),
{
    let cs = chars_of(base_url);
    let t = strip_trailing_chars(cs.as_slice(), '/');
    string_from_chars(t.as_slice())
}

/// The bridge's base URL on a local port.
pub open spec fn local_bridge_url(port: u16) -> Seq<char> {
    "http://127.0.0.1:"@ + decimal(port as nat)
}

/// The base URL of a bridge listening on `port` of this machine.
pub fn bridge_url_for_port(port: u16) -> (r: String)
    ensures
        r@ == local_bridge_url(port),
{
    let mut v: Vec<char> = Vec::new();
    push_str(&mut v, "http://127.0.0.1:");
    let d = fmt_u64(port as u64);
    push_chars(&mut v, d.as_slice());
    string_from_chars(v.as_slice())
}

/// The kline endpoint for a symbol, period and row count.
pub open spec fn kline_endpoint(base: Seq<char>, symbol: Seq<char>, period: Seq<char>, count: nat) -> Seq<char> {
    base + "/api/kline?symbol="@ + symbol + "&period="@ + period + "&count="@ + decimal(count)
}

/// The URL that asks the bridge for `count` rows of `symbol` in `period`.
pub fn kline_url(base: &str, symbol: &str, period: &str, count: usize) -> (r: String)
    ensures
        r@ == kline_endpoint(base@, symbol@, period@, count as nat),
{
    let mut v: Vec<char> = Vec::new();
    push_str(&mut v, base);
    push_str(&mut v, "/api/kline?symbol=");
    push_str(&mut v, symbol);
    push_str(&mut v, "&period=");
    push_str(&mut v, period);
    push_str(&mut v, "&count=");
    let d = fmt_u64(count as u64);
    push_chars(&mut v, d.as_slice());
    string_from_chars(v.as_slice())
}

/// The longest wait, in seconds, that a poll for closed-bar events asks of the bridge.
pub const MAX_EVENT_WAIT_SECS: u64 = 25;

/// The events endpoint: events after `after_id`, waiting at most `timeout` seconds.
pub open spec fn events_endpoint(base: Seq<char>, after_id: nat, timeout: nat) -> Seq<char> {
    base + "/api/events?after_id="@ + decimal(after_id) + "&timeout="@ + decimal(timeout)
}

/// The URL of a poll for closed-bar events, with the wait capped at 25 seconds, and
/// the client-side timeout for it (three seconds more).
pub fn events_url(base: &str, after_id: u64, timeout_secs: u64) -> (r: (String, u64))
    ensures
        ({
            let t = if timeout_secs < MAX_EVENT_WAIT_SECS { timeout_secs } else { MAX_EVENT_WAIT_SECS };
            r.0@ == events_endpoint(base@, after_id as nat, t as nat) && r.1 == t + 3
        }),
{
    let t = if timeout_secs < MAX_EVENT_WAIT_SECS { timeout_secs } else { MAX_EVENT_WAIT_SECS };
    let mut v: Vec<char> = Vec::new();
    push_str(&mut v, base);
    push_str(&mut v, "/api/events?after_id=");
    let a = fmt_u64(after_id);
    push_chars(&mut v, a.as_slice());
    push_str(&mut v, "&timeout=");
    let d = fmt_u64(t);
    push_chars(&mut v, d.as_slice());
    (string_from_chars(v.as_slice()), t + 3)
}

/// Seconds to allow a kline subscription: 15 plus one per symbol, kept within 18 to 35
/// (a cold start of many symbols takes long).
pub fn subscribe_timeout_secs(symbols: usize) -> (t: u64)
    ensures
        t == (if 15 + symbols < 18 { 18 } else if 15 + symbols > 35 { 35 } else { 15 + symbols }),
{
    if symbols > 20 {
        35
    } else {
        let t = 15 + symbols as u64;
        if t < 18 { 18 } else { t }
    }
}

/// The bridge is healthy when its report says status `ok`, TianQin connected, the
/// worker alive and the data not stale (a missing flag counts as false).
pub fn bridge_healthy(status: Option<&str>, tq_connected: Option<bool>, worker_alive: Option<bool>, stale: Option<bool>) -> (r: bool)
    ensures
        r == ((status matches Some(s) && s@ == "ok"@) && tq_connected == Some(true) && worker_alive == Some(true)
            && stale != Some(true)),
{
    let ok = match status {
        Some(s) => {
            let cs = chars_of(s);
            crate::text::eq_lit(cs.as_slice(), "ok")
        },
        None => false,
    };
    let connected = match tq_connected {
        Some(b) => b,
        None => false,
    };
    let alive = match worker_alive {
        Some(b) => b,
        None => false,
    };
    let is_stale = match stale {
        Some(b) => b,
        None => false,
    };
    ok && connected && alive && !is_stale
}

/// The closed bars of a TianQin series: the last row, the bar in progress, is dropped,
/// and of the rest the latest `count` are kept.
pub fn exclude_current_kline<T>(rows: Vec<T>, count: usize) -> (r: Vec<T>)
    ensures
        ({
            let closed = if rows@.len() == 0 { rows@ } else { rows@.drop_last() };
            r@ == if closed.len() > count {
                closed.subrange(closed.len() - count, closed.len() as int)
            } else {
                closed
            }
        }),
{
    let mut rows = rows;
    rows.pop();
    if rows.len() > count {
        let start = rows.len() - count;
        let kept = rows.split_off(start);
        kept
    } else {
        rows
    }
}

} // verus!
