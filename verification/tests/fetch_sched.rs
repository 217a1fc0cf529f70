use n_core::derive::rollover::month_code_readable;
use n_core::fetch::quotes::quote_line_readable;
use n_core::fetch::coordinator::{
    backoff, decode_text, next_retry, CoordinatorStats, DecodeError, PriorityQueues, QueuedItem, RequestPriority, SinaRequest,
};
use n_core::fetch::hybrid::{after_tq, missing_codes, refuse_without_tq, FetchStep, Route, SourceHealth, TqOutcome};
use n_core::fetch::quotes::{parse_quote_body, parse_quote_line, quote_urls};
use n_core::fetch::tq_client::{
    bridge_base_url, bridge_healthy, bridge_url_for_port, events_url, exclude_current_kline, kline_url, subscribe_timeout_secs,
    BarCloseProof,
};
use n_core::fetch::{Admission, RateLimiter};
use tokio::sync::oneshot;

type Reply = oneshot::Sender<Result<String, String>>;

fn item(url: &str, p: RequestPriority, tx: Reply) -> QueuedItem<Reply> {
    QueuedItem { req: SinaRequest::new(url, p), respond_to: tx }
}

#[test]
fn priority_order_enforced_p0_before_p1_before_p2() {
    let mut queues: PriorityQueues<Reply> = PriorityQueues::new();
    let (tx2, _rx2) = oneshot::channel();
    let (tx1, _rx1) = oneshot::channel();
    let (tx0, _rx0) = oneshot::channel();
    queues.push(item("http://example.com/p2", RequestPriority::P2, tx2));
    queues.push(item("http://example.com/p1", RequestPriority::P1, tx1));
    queues.push(item("http://example.com/p0", RequestPriority::P0, tx0));

    let pop0 = queues.pop_next_active(|t: &Reply| t.is_closed()).unwrap();
    assert_eq!(pop0.req.priority, RequestPriority::P0);
    assert_eq!(pop0.req.url, "http://example.com/p0");
    let pop1 = queues.pop_next_active(|t: &Reply| t.is_closed()).unwrap();
    assert_eq!(pop1.req.priority, RequestPriority::P1);
    assert_eq!(pop1.req.url, "http://example.com/p1");
    let pop2 = queues.pop_next_active(|t: &Reply| t.is_closed()).unwrap();
    assert_eq!(pop2.req.priority, RequestPriority::P2);
    assert_eq!(pop2.req.url, "http://example.com/p2");
    assert!(queues.pop_next_active(|t: &Reply| t.is_closed()).is_none());
}

#[test]
fn cancelled_requests_are_skipped() {
    let mut queues: PriorityQueues<Reply> = PriorityQueues::new();
    let (tx0, rx0) = oneshot::channel();
    let (tx1, _rx1) = oneshot::channel();
    queues.push(item("http://example.com/p0_cancelled", RequestPriority::P0, tx0));
    queues.push(item("http://example.com/p1_active", RequestPriority::P1, tx1));
    drop(rx0);
    let pop = queues.pop_next_active(|t: &Reply| t.is_closed()).unwrap();
    assert_eq!(pop.req.priority, RequestPriority::P1);
    assert_eq!(pop.req.url, "http://example.com/p1_active");
}

#[test]
fn fifo_within_same_priority() {
    let mut queues: PriorityQueues<Reply> = PriorityQueues::new();
    let (tx_a, _rx_a) = oneshot::channel();
    let (tx_b, _rx_b) = oneshot::channel();
    queues.push(item("http://example.com/p1_first", RequestPriority::P1, tx_a));
    queues.push(item("http://example.com/p1_second", RequestPriority::P1, tx_b));
    let first = queues.pop_next_active(|t: &Reply| t.is_closed()).unwrap();
    assert_eq!(first.req.url, "http://example.com/p1_first");
    let second = queues.pop_next_active(|t: &Reply| t.is_closed()).unwrap();
    assert_eq!(second.req.url, "http://example.com/p1_second");
}

#[test]
fn coordinator_stats_tracked() {
    let queues: PriorityQueues<Reply> = PriorityQueues::new();
    let stats = CoordinatorStats::snapshot(&queues, 8, 0, 0, 0);
    assert_eq!(stats.p0_queued, 0);
    assert_eq!(stats.p1_queued, 0);
    assert_eq!(stats.p2_queued, 0);
    assert_eq!(stats.in_flight, 0);
}

#[test]
fn stats_count_queued_and_in_flight() {
    let mut queues: PriorityQueues<Reply> = PriorityQueues::new();
    let (tx, _rx) = oneshot::channel();
    queues.push(item("u", RequestPriority::P2, tx));
    let stats = CoordinatorStats::snapshot(&queues, 5, 7, 4, 2);
    assert_eq!((stats.p0_queued, stats.p1_queued, stats.p2_queued), (0, 0, 1));
    assert_eq!(stats.in_flight, 3);
    assert_eq!((stats.total_dispatched, stats.total_success, stats.total_failed), (7, 4, 2));
    assert_eq!(queues.counts(), (0, 0, 1));
    queues.clear();
    assert!(queues.is_empty());
}

#[test]
fn all_cancelled_yields_none() {
    let mut queues: PriorityQueues<Reply> = PriorityQueues::new();
    let (tx, rx) = oneshot::channel();
    queues.push(item("http://example.com/cancelled", RequestPriority::P0, tx));
    drop(rx);
    assert!(queues.pop_next_active(|t: &Reply| t.is_closed()).is_none());
    assert!(queues.is_empty());
}

#[test]
fn requests_carry_their_headers() {
    let r = SinaRequest::with_referer("http://a", "http://ref", RequestPriority::REALTIME_QUOTE);
    assert_eq!(r.headers, vec![("Referer".to_string(), "http://ref".to_string())]);
    assert_eq!(r.priority, RequestPriority::P1);
    let h = SinaRequest::with_headers("http://b", &[("A", "1"), ("B", "2")], RequestPriority::NORMAL);
    assert_eq!(h.url, "http://b");
    assert_eq!(h.headers, vec![("A".to_string(), "1".to_string()), ("B".to_string(), "2".to_string())]);
    assert_eq!(h.priority, RequestPriority::P2);
    assert_eq!(RequestPriority::FINALITY, RequestPriority::P0);
    assert_eq!(RequestPriority::BACKFILL, RequestPriority::P2);
}

#[test]
fn retries_back_off_exponentially() {
    assert_eq!(backoff(0), 500);
    assert_eq!(backoff(1), 1000);
    assert_eq!(backoff(2), 2000);
    assert_eq!(backoff(55), 500 * (1u64 << 55));
    assert_eq!(next_retry(0), Some((1, 1000)));
    assert_eq!(next_retry(1), Some((2, 2000)));
    assert_eq!(next_retry(2), None);
}

#[test]
fn bodies_decode_as_utf8_then_gbk() {
    assert_eq!(decode_text("行情".as_bytes()), Ok("行情".to_string()));
    // "中文" in GBK.
    assert_eq!(decode_text(&[0xd6, 0xd0, 0xce, 0xc4]), Ok("中文".to_string()));
    assert_eq!(decode_text(&[0x81]), Err(DecodeError::NeitherUtf8NorGbk));
}

/// Asks the limiter for a slot until it grants one, sleeping on a simulated clock;
/// returns the time of the grant.
fn acquire(l: &mut RateLimiter, now: &mut u64) -> u64 {
    loop {
        match l.try_acquire(*now) {
            Admission::Granted => return *now,
            Admission::Wait(ms) => *now += ms,
        }
    }
}

#[test]
fn limiter_enforces_minute_budget() {
    let mut l = RateLimiter::with_window(1, 2, 200);
    let mut now = 1_000;
    let start = now;
    acquire(&mut l, &mut now);
    acquire(&mut l, &mut now);
    acquire(&mut l, &mut now);
    assert!(now - start >= 50);
}

#[test]
fn limiter_enforces_min_interval() {
    let mut l = RateLimiter::new(60, 100);
    let mut now = 1_000;
    let start = now;
    acquire(&mut l, &mut now);
    acquire(&mut l, &mut now);
    assert!(now - start >= 50);
}

#[test]
fn limiter_update_limits_dynamically() {
    let mut l = RateLimiter::new(200, 10);
    l.update_limits(50, 100);
    let mut now = 1_000;
    let start = now;
    acquire(&mut l, &mut now);
    acquire(&mut l, &mut now);
    assert!(now - start >= 40);
    assert_eq!(now - start, 50);
}

#[test]
fn limiter_waits_for_the_window_when_budget_is_spent() {
    let mut l = RateLimiter::with_window(50, 2, 1000);
    assert_eq!(l.try_acquire(0), Admission::Granted);
    assert_eq!(l.try_acquire(10), Admission::Wait(40));
    assert_eq!(l.try_acquire(50), Admission::Granted);
    assert_eq!(l.try_acquire(100), Admission::Wait(901));
    assert_eq!(l.try_acquire(1000), Admission::Granted);
}

#[test]
fn hybrid_data_source_falls_back_when_tq_unavailable() {
    let h = SourceHealth::new();
    assert_eq!(h.name(), "hybrid(sina-fallback)");
    assert_eq!(h.route(true, false), Route::Sina);
    assert_eq!(h.route(true, true), Route::CheckHealth);
    assert_eq!(h.route(false, true), Route::Sina);
}

#[test]
fn hybrid_data_source_strictly_honors_fallback_disabled() {
    assert!(refuse_without_tq(true, false));
    assert!(!refuse_without_tq(true, true));
    assert!(!refuse_without_tq(false, false));
    assert_eq!(after_tq(TqOutcome::Failed, false), FetchStep::Refuse);
    assert_eq!(after_tq(TqOutcome::Empty, true), FetchStep::Fallback);
    assert_eq!(after_tq(TqOutcome::Data, false), FetchStep::Return);
}

#[test]
fn three_failures_fail_over_and_two_healthy_checks_recover() {
    let mut h = SourceHealth::new();
    let (ok, e) = h.apply_probe(true, "桥接就绪", true);
    assert!(ok);
    let e = e.unwrap();
    assert_eq!((e.from.as_str(), e.to.as_str(), e.reason.as_str()), ("sina", "tqsdk", "桥接就绪"));
    assert_eq!(h.name(), "hybrid(tqsdk->sina)");
    assert!(h.record_failure("timeout").is_none());
    assert!(h.record_failure("timeout").is_none());
    let e = h.record_failure("timeout").unwrap();
    assert_eq!((e.from.as_str(), e.to.as_str()), ("tqsdk", "sina"));
    assert_eq!(e.reason, "天勤接口请求异常（timeout），已自动降级切换至新浪数据源");
    assert!(!h.tq_available);
    assert_eq!(h.apply_check(true, true).0, false);
    let (first, none) = h.apply_check(true, false);
    assert!(!first && none.is_none());
    let (second, ev) = h.apply_check(true, false);
    assert!(second);
    assert_eq!(ev.unwrap().reason, "天勤数据源探活确认稳定恢复，已自动切回主力天勤数据源");
    assert!(h.tq_available);
    assert_eq!(h.consecutive_failures, 0);
}

#[test]
fn a_success_resets_the_failure_run() {
    let mut h = SourceHealth::new();
    h.apply_probe(true, "r", false);
    h.record_failure("e");
    h.record_failure("e");
    h.record_success();
    assert!(h.record_failure("e").is_none());
    assert!(h.tq_available);
    let e = h.mark_unavailable("manual", true).unwrap();
    assert_eq!(e.reason, "manual");
    assert!(h.mark_unavailable("manual", true).is_none());
    let (ok, e) = h.apply_probe(false, "r", true);
    assert!(!ok && e.is_none());
}

#[test]
fn missing_codes_keep_request_order() {
    let codes = vec!["RB0".to_string(), "AU0".to_string(), "IF0".to_string()];
    let got = vec!["AU0".to_string()];
    assert_eq!(missing_codes(&codes, &got), vec!["RB0".to_string(), "IF0".to_string()]);
}

#[test]
fn production_rows_always_exclude_tq_current_tail() {
    let rows = vec![("2026-09-02 10:00:00", 1.0), ("2026-09-02 10:05:00", 2.0), ("2026-09-02 10:10:00", 3.0)];
    let closed = exclude_current_kline(rows, 10);
    assert_eq!(closed.len(), 2);
    assert_eq!(closed.last().unwrap().0, "2026-09-02 10:05:00");
    let rows = vec![1, 2, 3, 4, 5];
    assert_eq!(exclude_current_kline(rows, 2), vec![3, 4]);
    assert!(exclude_current_kline(Vec::<u8>::new(), 3).is_empty());
}

#[test]
fn bridge_endpoints_and_health() {
    assert_eq!(bridge_base_url("http://127.0.0.1:7777//"), "http://127.0.0.1:7777");
    assert_eq!(bridge_url_for_port(9999), "http://127.0.0.1:9999");
    assert_eq!(kline_url("http://h", "RB0", "5m", 301), "http://h/api/kline?symbol=RB0&period=5m&count=301");
    assert_eq!(events_url("http://h", 12, 60), ("http://h/api/events?after_id=12&timeout=25".to_string(), 28));
    assert_eq!(events_url("http://h", 0, 5).1, 8);
    assert_eq!(subscribe_timeout_secs(0), 18);
    assert_eq!(subscribe_timeout_secs(10), 25);
    assert_eq!(subscribe_timeout_secs(22), 35);
    assert!(bridge_healthy(Some("ok"), Some(true), Some(true), None));
    assert!(!bridge_healthy(Some("ok"), Some(true), Some(true), Some(true)));
    assert!(!bridge_healthy(Some("ok"), None, Some(true), Some(false)));
    assert!(!bridge_healthy(Some("degraded"), Some(true), Some(true), Some(false)));
    assert_eq!(BarCloseProof::SessionNotTrading.as_str(), "session_not_trading");
}

fn approx(a: f64, b: f64) -> bool {
    (a - b).abs() < 1e-6
}

fn change_pct(latest: f64, prev: f64) -> Option<f64> {
    if prev > 0.0 {
        Some((latest - prev) / prev * 100.0)
    } else {
        None
    }
}

#[test]
fn parses_commodity_quote() {
    let line = r#"var hq_str_nf_RB0="螺纹钢连续,150000,2990.000,2999.000,2968.000,2990.000,2989.000,2990.000,2990.000,2985.000,2983.000,115,90,2375618.000,797857,沪,螺纹钢,2026-08-05,1,,,,,,,,,2985.221,0.000,0,0.000,0,0.000,0,0.000,0,0.000,0,0.000,0,0.000,0,0.000,0";"#;
    let q = parse_quote_line(line).unwrap();
    let latest: f64 = q.latest.parse().unwrap();
    let prev: f64 = q.prev_settle.parse().unwrap();
    assert_eq!(q.code, "RB0");
    assert_eq!(q.name, "螺纹钢连续");
    assert_eq!(latest, 2990.0);
    assert_eq!(prev, 2983.0);
    assert!(approx(change_pct(latest, prev).unwrap(), (2990.0 - 2983.0) / 2983.0 * 100.0));
}

#[test]
fn parses_index_quote() {
    let line = r#"var hq_str_nf_IF0="4520.600,4641.200,4520.000,4621.000,76442,351262341.400,156390.000,4621.000,0.000,5018.800,4106.400,0.000,0.000,4552.800,4562.600,151539.000,4619.400,4,0.000,0,0.000,0,0.000,0,0.000,0,4621.000,2,0.000,0,0.000,0,0.000,0,0.000,0,2026-08-05,15:00:00,100,1,,,,,,,,,4595.148,沪深300指数期货连续";"#;
    let q = parse_quote_line(line).unwrap();
    let latest: f64 = q.latest.parse().unwrap();
    let prev: f64 = q.prev_settle.parse().unwrap();
    assert_eq!(q.code, "IF0");
    assert_eq!(q.name, "沪深300指数期货连续");
    assert_eq!(latest, 4621.0);
    assert_eq!(prev, 4562.6);
    assert!(approx(change_pct(latest, prev).unwrap(), (4621.0 - 4562.6) / 4562.6 * 100.0));
}

#[test]
fn empty_body_is_skipped() {
    let line = r#"var hq_str_nf_RB0="";"#;
    assert!(parse_quote_line(line).is_none());
}

#[test]
fn change_pct_is_none_when_no_prev_settle() {
    let q = parse_quote_body("RB0", "螺纹钢连续,150000,1,1,1,1,1,1,1,1,0").unwrap();
    let latest: f64 = q.latest.parse().unwrap();
    let prev: f64 = q.prev_settle.parse().unwrap();
    assert_eq!(latest, 1.0);
    assert_eq!(prev, 0.0);
    assert!(change_pct(latest, prev).is_none());
}

#[test]
fn quote_lines_without_code_or_fields_give_nothing() {
    assert!(parse_quote_line("no equals sign").is_none());
    assert!(parse_quote_line("var hq_str=\"a,b\";").is_none());
    assert!(parse_quote_line("var hq_str_nf_RB0=\"x,1,2\";").is_none());
    assert!(parse_quote_body("RB0", "n,t,o,h,l,c,b,a,abc,s,1").is_none());
}

#[test]
fn quote_urls_batch_fifty_codes() {
    let codes: Vec<String> = (0..51).map(|i| format!("C{i}")).collect();
    let urls = quote_urls(&codes);
    assert_eq!(urls.len(), 2);
    assert!(urls[0].starts_with("https://hq.sinajs.cn/list=nf_C0,nf_C1,"));
    assert!(urls[0].ends_with(",nf_C49"));
    assert_eq!(urls[1], "https://hq.sinajs.cn/list=nf_C50");
    assert!(quote_urls(&[]).is_empty());
}

#[test]
fn readability_checks_before_reading() {
    assert!(quote_line_readable("var hq_str_nf_RB0=\"\";"));
    assert!(quote_line_readable("no equals"));
    assert!(!quote_line_readable("var hq_str_nf_中=\"a\";"));
    assert!(quote_line_readable("var hq_str_nf_é=\"a\";"));
    assert!(month_code_readable("BU2609"));
    assert!(month_code_readable("BU0"));
    assert!(!month_code_readable("X1é2"));
}

#[test]
fn a_run_of_requests_keeps_spacing_and_budget() {
    let mut l = RateLimiter::with_window(400, 2, 1000);
    let times = [0u64, 100, 400, 800, 1000, 1400];
    let got: Vec<Admission> = times.iter().map(|&t| l.try_acquire(t)).collect();
    assert_eq!(
        got,
        vec![Admission::Granted, Admission::Wait(300), Admission::Granted, Admission::Wait(201), Admission::Granted, Admission::Granted]
    );
}
