use n_core::derive::rollover::{
    decide_rollover, is_month_contract, parse_ts, point_after, point_before, rollover_candidates, same_session, ConfirmResult,
};
use n_core::derive::{aggregate_buckets, trading_day, BucketSpan, Timeframe};

#[derive(Debug, Clone)]
struct Bar {
    datetime: String,
    open: f64,
    high: f64,
    low: f64,
    close: f64,
    volume: f64,
    hold: f64,
}

fn bar(datetime: &str, open: f64, high: f64, low: f64, close: f64, volume: f64, hold: f64) -> Bar {
    Bar { datetime: datetime.to_string(), open, high, low, close, volume, hold }
}

/// Folds base bars into the derived bars that the library groups them into.
fn aggregate(bars: &[Bar], target: Timeframe) -> Vec<Bar> {
    let dts: Vec<String> = bars.iter().map(|b| b.datetime.clone()).collect();
    let spans: Vec<BucketSpan> = aggregate_buckets(&dts, target);
    spans
        .iter()
        .map(|s| {
            let first = &bars[s.members[0]];
            let mut out = first.clone();
            out.datetime = s.ts.clone().unwrap_or_default();
            for &i in &s.members[1..] {
                let b = &bars[i];
                out.high = out.high.max(b.high);
                out.low = out.low.min(b.low);
                out.close = b.close;
                out.volume += b.volume;
                out.hold = b.hold;
            }
            out
        })
        .collect()
}

fn m15_bars() -> Vec<Bar> {
    vec![
        bar("2026-08-03 09:05:00", 100.0, 105.0, 99.0, 104.0, 100.0, 1000.0),
        bar("2026-08-03 09:10:00", 104.0, 106.0, 103.0, 105.0, 200.0, 1100.0),
        bar("2026-08-03 09:15:00", 105.0, 108.0, 104.0, 107.0, 150.0, 1200.0),
        bar("2026-08-03 09:20:00", 107.0, 107.5, 106.0, 106.5, 80.0, 1250.0),
        bar("2026-08-03 09:25:00", 106.5, 109.0, 106.0, 108.5, 120.0, 1300.0),
        bar("2026-08-03 09:30:00", 108.5, 110.0, 108.0, 109.5, 90.0, 1350.0),
    ]
}

#[test]
fn minute_bucket_alignment_and_ohlcv() {
    let out = aggregate(&m15_bars(), Timeframe::M15);
    assert_eq!(out.len(), 2);
    assert_eq!(out[0].datetime, "2026-08-03 09:15:00");
    assert_eq!(out[0].open, 100.0);
    assert_eq!(out[0].high, 108.0);
    assert_eq!(out[0].low, 99.0);
    assert_eq!(out[0].close, 107.0);
    assert_eq!(out[0].volume, 450.0);
    assert_eq!(out[0].hold, 1200.0);
    assert_eq!(out[1].datetime, "2026-08-03 09:30:00");
    assert_eq!(out[1].open, 107.0);
    assert_eq!(out[1].close, 109.5);
    assert_eq!(out[1].volume, 290.0);
}

#[test]
fn session_gap_splits_same_calendar_bucket() {
    let bars = vec![
        bar("2026-08-03 09:10:00", 100.0, 102.0, 99.0, 101.0, 100.0, 1000.0),
        bar("2026-08-03 09:55:00", 101.0, 103.0, 100.0, 102.0, 200.0, 1100.0),
    ];
    let out = aggregate(&bars, Timeframe::M60);
    assert_eq!(out.len(), 2);
    assert_eq!(out[0].datetime, "2026-08-03 10:00:00");
    assert_eq!(out[1].datetime, "2026-08-03 10:00:00");
    assert_eq!(out[0].open, 100.0);
    assert_eq!(out[1].open, 101.0);
}

#[test]
fn daily_night_session_counts_to_next_trading_day() {
    assert_eq!(trading_day((2026, 8, 3, 21, 5, 0)), Some((2026, 8, 4)));
    assert_eq!(trading_day((2026, 8, 3, 15, 0, 0)), Some((2026, 8, 3)));
}

#[test]
fn daily_bucket_merges_night_into_next_day() {
    let bars = vec![
        bar("2026-08-03 21:05:00", 3000.0, 3020.0, 2990.0, 3010.0, 500.0, 10000.0),
        bar("2026-08-04 09:05:00", 3010.0, 3050.0, 3005.0, 3040.0, 700.0, 10500.0),
    ];
    let out = aggregate(&bars, Timeframe::Day);
    assert_eq!(out.len(), 1);
    assert_eq!(out[0].datetime, "2026-08-04 15:00:00");
    assert_eq!(out[0].open, 3000.0);
    assert_eq!(out[0].high, 3050.0);
    assert_eq!(out[0].low, 2990.0);
    assert_eq!(out[0].close, 3040.0);
    assert_eq!(out[0].volume, 1200.0);
    assert_eq!(out[0].hold, 10500.0);
}

#[test]
fn empty_and_m5_passthrough() {
    assert!(aggregate(&[], Timeframe::M15).is_empty());
    let bars = m15_bars();
    assert_eq!(aggregate(&bars, Timeframe::M5).len(), bars.len());
}

#[test]
fn unreadable_bars_are_skipped_and_last_bucket_rolls_to_next_day() {
    let dts = vec!["garbage".to_string(), "2026-08-03 23:50:00".to_string(), "2026-08-03 23:55:00".to_string()];
    let spans = aggregate_buckets(&dts, Timeframe::M60);
    assert_eq!(spans.len(), 1);
    assert_eq!(spans[0].members, vec![1, 2]);
    assert_eq!(spans[0].ts.as_deref(), Some("2026-08-04 00:00:00"));
    // The 5m target keeps even unreadable bars.
    let m5 = aggregate_buckets(&dts, Timeframe::M5);
    assert_eq!(m5.len(), 3);
    assert_eq!(m5[0].ts.as_deref(), Some("garbage"));
}

#[test]
fn timeframe_names_round_trip() {
    for t in Timeframe::supported() {
        assert_eq!(Timeframe::parse(t.as_str()), Some(t));
    }
    assert_eq!(Timeframe::parse("day"), Some(Timeframe::Day));
    assert_eq!(Timeframe::parse("2h"), None);
    assert_eq!(Timeframe::M240.minutes(), Some(240));
    assert_eq!(Timeframe::Day.minutes(), None);
}

fn session(day: &str) -> Vec<String> {
    (0..5).map(|i| format!("{day} 14:{:02}:00", 40 + i * 5)).collect()
}

#[test]
fn treats_small_session_break_as_candidate() {
    let mut dts = session("2026-08-05");
    dts.push("2026-08-05 15:00:00".to_string());
    dts.push("2026-08-05 21:05:00".to_string());
    let cands = rollover_candidates(&dts);
    assert_eq!(cands.len(), 1);
    assert_eq!(dts[cands[0]], "2026-08-05 21:05:00");
}

#[test]
fn detects_rollover_with_moderate_hold_shift() {
    let mut dts = session("2026-08-04");
    dts.push("2026-08-04 15:00:00".to_string());
    dts.push("2026-08-05 09:05:00".to_string());
    let cands = rollover_candidates(&dts);
    assert_eq!(cands.len(), 1);
    assert_eq!(dts[cands[0]], "2026-08-05 09:05:00");
}

#[test]
fn short_intraday_break_is_not_candidate() {
    let dts = vec!["2026-08-05 11:30:00".to_string(), "2026-08-05 13:35:00".to_string()];
    assert!(rollover_candidates(&dts).is_empty());
}

#[test]
fn break_of_three_hours_is_a_candidate() {
    let dts = vec![
        "2026-08-05 12:00:00".to_string(),
        "2026-08-05 15:00:00".to_string(),
        "2026-08-05 17:59:59".to_string(),
        "2026-08-05 21:00:00".to_string(),
    ];
    assert_eq!(rollover_candidates(&dts), vec![1, 3]);
}

#[test]
fn month_contract_codes() {
    assert!(is_month_contract("BU2609"));
    assert!(is_month_contract("C2611"));
    assert!(!is_month_contract("BU0"));
    assert!(!is_month_contract("BU26099"));
    assert!(!is_month_contract("RB"));
    assert!(!is_month_contract("RB26ab"));
    assert!(!is_month_contract("2609"));
    assert!(!is_month_contract("X12é"));
}

#[test]
fn month_bars_facing_a_break() {
    let rows = vec![
        "2026-08-05 14:55:00".to_string(),
        "bad".to_string(),
        "2026-08-05 15:00:00".to_string(),
        "2026-08-05 21:05:00".to_string(),
    ];
    let before = (2026, 8, 5, 15, 0, 0);
    let after = (2026, 8, 5, 21, 5, 0);
    assert_eq!(point_before(&rows, before), Some(2));
    assert_eq!(point_after(&rows, after), Some(3));
    // A month contract whose last bar is more than 48 hours before the break does not count.
    let stale = vec!["2026-07-24 15:00:00".to_string()];
    assert_eq!(point_before(&stale, (2026, 8, 14, 15, 0, 0)), None);
    assert_eq!(point_after(&stale, (2026, 8, 14, 21, 5, 0)), None);
}

#[test]
fn rollover_verdicts() {
    assert_eq!(decide_rollover(false, 3, true, true, Some("BU2609"), Some("BU2610"), false), ConfirmResult::InsufficientData);
    assert_eq!(decide_rollover(true, 1, true, true, Some("BU2609"), Some("BU2610"), false), ConfirmResult::InsufficientData);
    assert_eq!(decide_rollover(true, 2, false, true, Some("BU2609"), Some("BU2610"), false), ConfirmResult::NotRollover);
    assert_eq!(decide_rollover(true, 2, true, true, None, Some("BU2610"), false), ConfirmResult::NotRollover);
    assert_eq!(decide_rollover(true, 2, true, true, Some("BU2610"), Some("BU2609"), false), ConfirmResult::NotRollover);
    assert_eq!(decide_rollover(true, 2, true, true, Some("BU2609"), Some("BU2609"), false), ConfirmResult::NotRollover);
    assert_eq!(decide_rollover(true, 2, true, true, Some("BU2609"), Some("BU2610"), true), ConfirmResult::NotRollover);
    assert_eq!(
        decide_rollover(true, 2, true, true, Some("BU2609"), Some("BU2610"), false),
        ConfirmResult::Confirmed("BU2609".to_string(), "BU2610".to_string())
    );
}

#[test]
fn bar_times_read_into_calendar_fields() {
    assert_eq!(parse_ts("2026-08-03 21:05:00"), Some((2026, 8, 3, 21, 5, 0)));
    assert_eq!(parse_ts("2026-02-30 21:05:00"), None);
    assert_eq!(parse_ts("2026-08-03"), None);
}

#[test]
fn consecutive_bars_share_a_session_within_five_minutes() {
    assert_eq!(same_session("2026-08-03 21:00:00", "2026-08-03 21:05:00"), Some(true));
    assert_eq!(same_session("2026-08-03 21:00:00", "2026-08-03 21:05:59"), Some(true));
    assert_eq!(same_session("2026-08-03 21:00:00", "2026-08-03 21:06:00"), Some(false));
    assert_eq!(same_session("2026-08-03 10:15:00", "2026-08-03 10:30:00"), Some(false));
    assert_eq!(same_session("2026-08-03 21:05:00", "2026-08-03 21:00:00"), Some(true));
    assert_eq!(same_session("bad", "2026-08-03 21:00:00"), None);
}

#[test]
fn calendar_steps_cross_month_year_and_leap_days() {
    assert_eq!(trading_day((2025, 12, 31, 21, 0, 0)), Some((2026, 1, 1)));
    assert_eq!(trading_day((2024, 2, 28, 21, 0, 0)), Some((2024, 2, 29)));
    assert_eq!(trading_day((2023, 2, 28, 21, 0, 0)), Some((2023, 3, 1)));
    assert_eq!(trading_day((2026, 4, 30, 22, 0, 0)), Some((2026, 5, 1)));
    assert_eq!(trading_day((2026, 2, 30, 22, 0, 0)), None);
    assert_eq!(same_session("2025-12-31 23:58:00", "2026-01-01 00:02:00"), Some(true));
    assert_eq!(same_session("2024-02-28 23:59:00", "2024-02-29 00:04:59"), Some(true));
    assert_eq!(same_session("2024-02-28 23:59:00", "2024-03-01 00:01:00"), Some(false));
}
