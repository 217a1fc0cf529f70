//! Request scheduling for the Sina API: three priority tiers served strictly in
//! order (finality probes, then realtime quotes, then everything else), first in
//! first out within a tier, skipping requests whose caller has gone; a bounded retry
//! with exponential backoff; and the decoding of a response body.
//!
//! The queues are generic over the reply channel, which the caller owns; whether a
//! caller has gone is asked of the caller's closure.
use vstd::prelude::*;
use std::collections::VecDeque;

use crate::text::owned;

verus! {

/// Retries after the first attempt of a request.
pub const MAX_RETRIES: usize = 2;
/// Requests in flight at once.
pub const MAX_CONCURRENT_IN_FLIGHT: usize = 8;

/// The tier of a request: `P0` (finality probes, realtime confirmations) goes before
/// `P1` (realtime quote polling), which goes before `P2` (backfill, refresh, rollover
/// search, diagnostics).
#[derive(Debug, Clone, Copy, PartialEq, Eq, PartialOrd, Ord, Hash, Structural)]
pub enum RequestPriority {
    P0,
    P1,
    P2,
}

impl RequestPriority {
    pub const FINALITY: Self = Self::P0;
    pub const REALTIME_QUOTE: Self = Self::P1;
    pub const BACKFILL: Self = Self::P2;
    pub const NORMAL: Self = Self::P2;
}

/// A request for the Sina API.
#[derive(Debug, Clone)]
pub struct SinaRequest {
    pub url: String,
    pub headers: Vec<(String, String)>,
    pub priority: RequestPriority,
}

/// The text of a header list.
pub open spec fn header_views(h: Seq<(String, String)>) -> Seq<(Seq<char>, Seq<char>)> {
    h.map_values(|p: (String, String)| (p.0@, p.1@))
}

/// The text of a borrowed header list.
pub open spec fn header_str_views(h: Seq<(&str, &str)>) -> Seq<(Seq<char>, Seq<char>)> {
    h.map_values(|p: (&str, &str)| (p.0@, p.1@))
}

impl SinaRequest {
    /// A request without headers.
    pub fn new(url: &str, priority: RequestPriority) -> (r: Self)
        ensures
            r.url@ == url@,
            r.headers@.len() == 0,
            r.priority == priority,
    {
        Self { url: owned(url), headers: Vec::new(), priority }
    }

    /// A request that carries a `Referer` header.
    pub fn with_referer(url: &str, referer: &str, priority: RequestPriority) -> (r: Self)
        ensures
            r.url@ == url@,
            header_views(r.headers@) == seq![("Referer"@, referer@)],
            r.priority == priority,
    {
        let mut headers: Vec<(String, String)> = Vec::new();
        headers.push((owned("Referer"), owned(referer)));
        proof {
            assert(header_views(headers@) =~= seq![("Referer"@, referer@)]);
        }
        Self { url: owned(url), headers, priority }
    }

    /// A request that carries the given headers, in order.
    pub fn with_headers(url: &str, headers: &[(&str, &str)], priority: RequestPriority) -> (r: Self)
        ensures
            r.url@ == url@,
            header_views(r.headers@) == header_str_views(headers@),
            r.priority == priority,
    {
        let mut out: Vec<(String, String)> = Vec::new();
        let mut i: usize = 0;
        while i < headers.len()
            invariant
                i <= headers.len(),
                header_views(out@) == header_str_views(headers@.subrange(0, i as int)),
            decreases headers.len() - i,
        {
            let (k, v) = headers[i];
            let ghost before = out@;
            out.push((owned(k), owned(v)));
            proof {
                assert(header_views(out@) =~= header_views(before).push((k@, v@)));
                assert(headers@.subrange(0, i as int + 1) =~= headers@.subrange(0, i as int).push(headers@[i as int]));
                assert(header_str_views(headers@.subrange(0, i as int + 1)) =~= header_str_views(headers@.subrange(0, i as int)).push((k@, v@)));
            }
            i = i + 1;
        }
        proof {
            assert(headers@.subrange(0, headers@.len() as int) =~= headers@);
        }
        Self { url: owned(url), headers: out, priority }
    }
}

/// A queued request and the channel its reply goes to.
pub struct QueuedItem<T> {
    pub req: SinaRequest,
    pub respond_to: T,
}

/// Pending requests by tier.
pub struct PriorityQueues<T> {
    p0: VecDeque<QueuedItem<T>>,
    p1: VecDeque<QueuedItem<T>>,
    p2: VecDeque<QueuedItem<T>>,
}

/// A snapshot of the coordinator's counters.
#[derive(Debug, Clone, Copy)]
pub struct CoordinatorStats {
    pub p0_queued: usize,
    pub p1_queued: usize,
    pub p2_queued: usize,
    pub in_flight: usize,
    pub total_dispatched: u64,
    pub total_success: u64,
    pub total_failed: u64,
}

/// The caller behind every item of `s` has gone, by `is_closed`.
pub open spec fn all_closed<T, F: Fn(&T) -> bool>(is_closed: F, s: Seq<QueuedItem<T>>) -> bool {
    forall|i: int| 0 <= i < s.len() ==> is_closed.ensures((&s[i].respond_to,), true)
}

/// A tier was emptied, every item in it having a gone caller.
pub open spec fn drained<T, F: Fn(&T) -> bool>(is_closed: F, before: Seq<QueuedItem<T>>, after: Seq<QueuedItem<T>>) -> bool {
    after.len() == 0 && all_closed(is_closed, before)
}

/// `x` was taken from a tier: the items ahead of it had gone callers and were dropped,
/// its own caller is still there, and the rest of the tier stays in order.
pub open spec fn popped_from<T, F: Fn(&T) -> bool>(
    is_closed: F,
    before: Seq<QueuedItem<T>>,
    after: Seq<QueuedItem<T>>,
    x: QueuedItem<T>,
) -> bool {
    let k = before.len() - after.len() - 1;
    &&& 0 <= k < before.len()
    &&& x == before[k]
    &&& after == before.subrange(k + 1, before.len() as int)
    &&& all_closed(is_closed, before.subrange(0, k))
    &&& is_closed.ensures((&x.respond_to,), false)
}

impl<T> PriorityQueues<T> {
    /// The tiers' contents, highest priority first.
    pub closed spec fn tiers(&self) -> (Seq<QueuedItem<T>>, Seq<QueuedItem<T>>, Seq<QueuedItem<T>>) {
        (self.p0@, self.p1@, self.p2@)
    }

    /// Empty queues.
    pub fn new() -> (q: Self)
        ensures
            q.tiers().0.len() == 0 && q.tiers().1.len() == 0 && q.tiers().2.len() == 0,
    {
        Self { p0: VecDeque::new(), p1: VecDeque::new(), p2: VecDeque::new() }
    }

    /// Appends an item to the back of its request's tier.
    pub fn push(&mut self, item: QueuedItem<T>)
        ensures
            ({
                let (o0, o1, o2) = old(self).tiers();
                let (n0, n1, n2) = final(self).tiers();
                match item.req.priority {
                    RequestPriority::P0 => n0 == o0.push(item) && n1 == o1 && n2 == o2,
                    RequestPriority::P1 => n0 == o0 && n1 == o1.push(item) && n2 == o2,
                    RequestPriority::P2 => n0 == o0 && n1 == o1 && n2 == o2.push(item),
                }
            }),
    {
        match item.req.priority {
            RequestPriority::P0 => self.p0.push_back(item),
            RequestPriority::P1 => self.p1.push_back(item),
            RequestPriority::P2 => self.p2.push_back(item),
        }
    }

    /// Takes the next request whose caller is still there: the first live item of the
    /// highest non-drained tier. Items with gone callers met on the way are dropped.
    pub fn pop_next_active<F: Fn(&T) -> bool>(&mut self, is_closed: F) -> (r: Option<QueuedItem<T>>)
        requires
            forall|x: &T| is_closed.requires((x,)),
        ensures
            ({
                let (o0, o1, o2) = old(self).tiers();
                let (n0, n1, n2) = final(self).tiers();
                match r {
                    Some(x) => {
                        ||| popped_from(is_closed, o0, n0, x) && n1 == o1 && n2 == o2
                        ||| drained(is_closed, o0, n0) && popped_from(is_closed, o1, n1, x) && n2 == o2
                        ||| drained(is_closed, o0, n0) && drained(is_closed, o1, n1) && popped_from(is_closed, o2, n2, x)
                    },
                    None => drained(is_closed, o0, n0) && drained(is_closed, o1, n1) && drained(is_closed, o2, n2),
                }
            }),
    {
        let r0 = Self::pop_live(&mut self.p0, &is_closed);
        if r0.is_some() {
            return r0;
        }
        let r1 = Self::pop_live(&mut self.p1, &is_closed);
        if r1.is_some() {
            return r1;
        }
        Self::pop_live(&mut self.p2, &is_closed)
    }

    fn pop_live<F: Fn(&T) -> bool>(q: &mut VecDeque<QueuedItem<T>>, is_closed: &F) -> (r: Option<QueuedItem<T>>)
        requires
            forall|x: &T| is_closed.requires((x,)),
        ensures
            match r {
                Some(x) => popped_from(*is_closed, old(q)@, final(q)@, x),
                None => drained(*is_closed, old(q)@, final(q)@),
            },
    {
        let ghost start = q@;
        while q.len() > 0
            invariant
                forall|x: &T| is_closed.requires((x,)),
                start == old(q)@,
                q@.len() <= start.len(),
                q@ == start.subrange(start.len() - q@.len(), start.len() as int),
                all_closed(*is_closed, start.subrange(0, start.len() - q@.len())),
            decreases q@.len(),
        {
            let ghost k = start.len() - q@.len();
            let item = q.pop_front().unwrap();
            let closed = is_closed(&item.respond_to);
            if !closed {
                proof {
                    assert((*is_closed).ensures((&item.respond_to,), false));
                    assert(item == start[k]);
                    assert(q@ =~= start.subrange(k + 1, start.len() as int));
                }
                return Some(item);
            }
            proof {
                assert(item == start[k]);
                assert(start.subrange(0, k + 1) =~= start.subrange(0, k).push(item));
                assert(q@ =~= start.subrange(k + 1, start.len() as int));
            }
        }
        proof {
            assert(start.subrange(0, start.len() as int) =~= start);
        }
        None
    }

    /// No request is pending.
    pub fn is_empty(&self) -> (r: bool)
        ensures
            r == (self.tiers().0.len() == 0 && self.tiers().1.len() == 0 && self.tiers().2.len() == 0),
    {
        self.p0.len() == 0 && self.p1.len() == 0 && self.p2.len() == 0
    }

    /// Pending requests per tier.
    pub fn counts(&self) -> (r: (usize, usize, usize))
        ensures
            r.0 == self.tiers().0.len() && r.1 == self.tiers().1.len() && r.2 == self.tiers().2.len(),
    {
        (self.p0.len(), self.p1.len(), self.p2.len())
    }

    /// Drops every pending request.
    pub fn clear(&mut self)
        ensures
            final(self).tiers().0.len() == 0 && final(self).tiers().1.len() == 0 && final(self).tiers().2.len() == 0,
    {
        self.p0.clear();
        self.p1.clear();
        self.p2.clear();
    }
}

impl CoordinatorStats {
    /// The snapshot for the given queues, free concurrency permits and totals: the
    /// requests in flight are the permits taken out of `MAX_CONCURRENT_IN_FLIGHT`.
    pub fn snapshot<T>(queues: &PriorityQueues<T>, available_permits: usize, dispatched: u64, success: u64, failed: u64) -> (s: Self)
        ensures
            s.p0_queued == queues.tiers().0.len(),
            s.p1_queued == queues.tiers().1.len(),
            s.p2_queued == queues.tiers().2.len(),
            s.in_flight == (if available_permits < MAX_CONCURRENT_IN_FLIGHT {
                MAX_CONCURRENT_IN_FLIGHT - available_permits
            } else {
                0
            }),
            s.total_dispatched == dispatched,
            s.total_success == success,
            s.total_failed == failed,
    {
        let (p0_queued, p1_queued, p2_queued) = queues.counts();
        let in_flight = if available_permits < MAX_CONCURRENT_IN_FLIGHT {
            MAX_CONCURRENT_IN_FLIGHT - available_permits
        } else {
            0
        };
        Self {
            p0_queued,
            p1_queued,
            p2_queued,
            in_flight,
            total_dispatched: dispatched,
            total_success: success,
            total_failed: failed,
        }
    }
}

/// Milliseconds to wait before retry number `attempt`: 500 ms doubled per attempt.
pub open spec fn backoff_ms(attempt: nat) -> nat
    decreases attempt,
{
    if attempt == 0 {
        500
    } else {
        2 * backoff_ms((attempt - 1) as nat)
    }
}

proof fn lemma_backoff_exact(attempt: nat)
    ensures
        backoff_ms(attempt) == 500 * vstd::arithmetic::power2::pow2(attempt),
    decreases attempt,
{
    if attempt > 0 {
        lemma_backoff_exact((attempt - 1) as nat);
        vstd::arithmetic::power2::lemma_pow2_unfold(attempt);
    } else {
        vstd::arithmetic::power2::lemma2_to64();
    }
}

/// The backoff before retry number `attempt` (`attempt` at most 55, where it still
/// fits in 64 bits).
pub fn backoff(attempt: u32) -> (ms: u64)
    requires
        attempt <= 55,
    ensures
        ms == backoff_ms(attempt as nat),
{
    let mut ms: u64 = 500;
    let mut i: u32 = 0;
    while i < attempt
        invariant
            i <= attempt <= 55,
            ms == backoff_ms(i as nat),
        decreases attempt - i,
    {
        proof {
            lemma_backoff_exact(i as nat);
            if i < 54 {
                vstd::arithmetic::power2::lemma_pow2_strictly_increases(i as nat, 54);
            }
            vstd::arithmetic::power2::lemma2_to64_rest();
            assert(500 * vstd::arithmetic::power2::pow2(54) * 2 < 0x1_0000_0000_0000_0000);
        }
        ms = ms * 2;
        i = i + 1;
    }
    ms
}

/// What to do after a failed attempt: retry (with the next attempt number and its
/// backoff) while fewer than `MAX_RETRIES` retries were made, else give up.
pub fn next_retry(attempt: usize) -> (r: Option<(usize, u64)>)
    ensures
        attempt < MAX_RETRIES ==> r == Some(((attempt + 1) as usize, backoff_ms((attempt + 1) as nat) as u64)),
        attempt >= MAX_RETRIES ==> r is None,
{
    if attempt < MAX_RETRIES {
        let next = attempt + 1;
        Some((next, backoff(next as u32)))
    } else {
        None
    }
}

/// What `std::str::from_utf8` reads from bytes: the text, or `None` where they are not
/// valid UTF-8.
pub uninterp spec fn std_from_utf8(bytes: Seq<u8>) -> Option<Seq<char>>;

/// What `encoding_rs::GBK.decode` gives for bytes: the text and whether malformed
/// sequences were met.
pub uninterp spec fn gbk_decoded(bytes: Seq<u8>) -> (Seq<char>, bool);

/// Reads bytes as UTF-8 with `std::str::from_utf8`. The contract names the result.
#[verifier::external_body]
fn utf8_text(bytes: &[u8]) -> (r: Option<String>)
    ensures
        match r {
            Some(s) => std_from_utf8(bytes@) == Some(s@),
            None => std_from_utf8(bytes@) is None,
        },
{
    match std::str::from_utf8(bytes) {
        Ok(t) => Some(t.to_string()),
        Err(_) => None,
    }
}

/// Decodes bytes with `encoding_rs::GBK.decode` (which also honours a leading
/// byte-order mark). The contract names the text and the error flag.
#[verifier::external_body]
fn gbk_text(bytes: &[u8]) -> (r: (String, bool))
    ensures
        gbk_decoded(bytes@) == (r.0@, r.1),
{
    let (text, _, had_errors) = encoding_rs::GBK.decode(bytes);
    (text.into_owned(), had_errors)
}

/// A response body that is neither UTF-8 nor clean GBK.
#[derive(Debug, Clone, Copy, PartialEq, Eq, Structural)]
pub enum DecodeError {
    NeitherUtf8NorGbk,
}

/// The text of a response body: as UTF-8 where it is valid UTF-8, else as GBK, and an
/// error where GBK decoding meets malformed sequences.
pub fn decode_text(bytes: &[u8]) -> (r: Result<String, DecodeError>)
    ensures
        match std_from_utf8(bytes@) {
            Some(t) => r matches Ok(s) && s@ == t,
            None => if gbk_decoded(bytes@).1 {
                r == Err::<String, DecodeError>(DecodeError::NeitherUtf8NorGbk)
            } else {
                r matches Ok(s) && s@ == gbk_decoded(bytes@).0
            },
        },
{
    match utf8_text(bytes) {
        Some(t) => Ok(t),
        None => {
            let (text, had_errors) = gbk_text(bytes);
            if had_errors {
                Err(DecodeError::NeitherUtf8NorGbk)
            } else {
                Ok(text)
            }
        },
    }
}

} // verus!
