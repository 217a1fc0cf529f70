use n_core::finality::analysis::{
    evaluate_sentinels, group_probes, simulate_strategies, ProbeObservation, StrategyDef,
};
use n_core::finality::judger::{FinalityJudger, FinalityPolicy, FinalityStatus};
use n_core::finality::model::FinalityTrial;
use n_core::finality::observer::{
    find_probed_bar, is_valid_5m_trading_boundary, keep_raw_response, total_probes, FinalityConfig,
};

fn dummy_obs(symbol: &str, bar_ts: &str, elapsed_ms: i64, fp: &str) -> ProbeObservation {
    ProbeObservation {
        symbol: symbol.to_string(),
        bar_ts: bar_ts.to_string(),
        elapsed_ms,
        probe_index: (elapsed_ms / 5000) as i32,
        fingerprint: fp.to_string(),
    }
}

#[test]
fn test_simulation_accuracy() {
    let mut obs = Vec::new();
    obs.push(dummy_obs("RB0", "2026-08-28 10:45:00", 0, "A"));
    obs.push(dummy_obs("RB0", "2026-08-28 10:45:00", 5000, "A"));
    obs.push(dummy_obs("RB0", "2026-08-28 10:45:00", 10000, "A"));
    obs.push(dummy_obs("RB0", "2026-08-28 10:45:00", 15000, "A"));

    obs.push(dummy_obs("CJ0", "2026-08-28 11:30:00", 0, "A"));
    obs.push(dummy_obs("CJ0", "2026-08-28 11:30:00", 5000, "A"));
    obs.push(dummy_obs("CJ0", "2026-08-28 11:30:00", 10000, "A"));
    obs.push(dummy_obs("CJ0", "2026-08-28 11:30:00", 15000, "B"));

    let strats = vec![
        StrategyDef::new("3-consec-0s", 0, 3),
        StrategyDef::new("min-15s-3consec", 15, 3),
    ];

    let results = simulate_strategies(&obs, &strats);
    assert_eq!(results.len(), 2);

    assert_eq!(results[0].confirmed_bars, 2);
    assert_eq!(results[0].false_final_count, 1);
    let rate = results[0].false_final_count as f64 / results[0].confirmed_bars as f64;
    assert_eq!(rate, 0.5);

    assert_eq!(results[1].confirmed_bars, 1);
    assert_eq!(results[1].false_final_count, 0);
}

#[test]
fn simulation_replays_in_probe_index_order_and_reports_delays() {
    // recorded out of order: probe index 2 first
    let mut a = dummy_obs("AU0", "t1", 10000, "X");
    a.probe_index = 2;
    let mut b = dummy_obs("AU0", "t1", 0, "X");
    b.probe_index = 0;
    let mut c = dummy_obs("AU0", "t1", 5000, "X");
    c.probe_index = 1;
    let d = dummy_obs("AU0", "t2", -300, "Y");
    let obs = vec![a, b, c, d];
    let groups = group_probes(&obs);
    assert_eq!(groups, vec![vec![1, 2, 0], vec![3]]);

    let strats = vec![StrategyDef::new("one", 0, 1), StrategyDef::new("two", 0, 2)];
    let res = simulate_strategies(&obs, &strats);
    assert_eq!(res[0].total_bars, 2);
    assert_eq!(res[0].confirmed_bars, 2);
    // negative delay reads as zero
    assert_eq!(res[0].confirm_delays_ms, vec![0, 0]);
    assert_eq!(res[1].confirmed_bars, 1);
    assert_eq!(res[1].unconfirmed_bars, 1);
    assert_eq!(res[1].confirm_delays_ms, vec![5000]);
}

#[test]
fn default_strategies_cover_production_baseline() {
    let v = StrategyDef::default_strategies();
    assert_eq!(v.len(), 10);
    assert_eq!(v[8].min_settle_secs, 30);
    assert_eq!(v[8].consecutive_required, 1);
    assert_eq!(v[1].name, "3次一致 (min 0s [当前影子试验])");
}

fn trial(symbol: &str, bar_ts: &str, cand: Option<i64>, last_rev: Option<i64>) -> FinalityTrial {
    FinalityTrial {
        id: None,
        symbol: symbol.to_string(),
        bar_ts: bar_ts.to_string(),
        session_type: "normal".to_string(),
        first_seen_at: None,
        first_seen_delay_ms: Some(0),
        candidate_final_at: cand.map(|_| "x".to_string()),
        candidate_delay_ms: cand,
        revision_count: if last_rev.is_some() { 1 } else { 0 },
        last_revision_at: None,
        last_revision_delay_ms: last_rev,
        false_final: false,
        candidate_fingerprint: None,
        final_fingerprint: None,
        probe_count: 5,
        completed: true,
        created_at: String::new(),
        updated_at: String::new(),
    }
}

#[test]
fn sentinel_batches_detect_late_non_sentinel_revision() {
    let trials = vec![
        trial("RB0", "b1", Some(10000), None),
        trial("AU0", "b1", Some(15000), None),
        trial("CU0", "b1", Some(5000), Some(20000)),
        trial("RB0", "b2", Some(10000), None),
        trial("AU0", "b2", None, None),
        trial("RB0", "b3", Some(5000), None),
        trial("AU0", "b3", Some(5000), Some(4000)),
        trial("CU0", "b3", Some(5000), Some(5000)),
    ];
    let sentinels = vec!["RB0".to_string(), "AU0".to_string()];
    let res = evaluate_sentinels(&trials, &sentinels);
    assert_eq!(res.total_batches, 3);
    assert_eq!(res.valid_batches, 2);
    assert_eq!(res.batches_with_non_sentinel_late_revision, 1);
    assert_eq!(res.sentinel_final_ms, vec![15000, 5000]);
    assert_eq!(res.sentinel_symbols, sentinels);
}

#[test]
fn test_ordinary_bar_settle_threshold() {
    let judger = FinalityJudger::default();
    let rb_closes = [(10, 15), (11, 30), (15, 0), (23, 0)];
    let bar_dt = (2026, 8, 31, 10, 0, 0);
    let now_29 = (2026, 8, 31, 10, 0, 29);
    assert_eq!(judger.evaluate_bar(&rb_closes, bar_dt, now_29), Some(FinalityStatus::Candidate));
    assert!(!judger.is_bar_final(&rb_closes, bar_dt, now_29));
    assert_eq!(judger.remaining_settle_secs(&rb_closes, 10, 0, 29), 1);
    let now_30 = (2026, 8, 31, 10, 0, 30);
    assert_eq!(judger.evaluate_bar(&rb_closes, bar_dt, now_30), Some(FinalityStatus::Final));
    assert!(judger.is_bar_final(&rb_closes, bar_dt, now_30));
    assert_eq!(judger.remaining_settle_secs(&rb_closes, 10, 0, 30), 0);
}

#[test]
fn test_session_close_bar_settle_threshold() {
    let judger = FinalityJudger::default();
    let rb_closes = [(10, 15), (11, 30), (15, 0), (23, 0)];
    let close_dt = (2026, 8, 31, 11, 30, 0);
    assert_eq!(judger.evaluate_bar(&rb_closes, close_dt, (2026, 8, 31, 11, 30, 35)), Some(FinalityStatus::Candidate));
    assert_eq!(judger.remaining_settle_secs(&rb_closes, 11, 30, 35), 40);
    assert_eq!(judger.evaluate_bar(&rb_closes, close_dt, (2026, 8, 31, 11, 31, 14)), Some(FinalityStatus::Candidate));
    assert_eq!(judger.evaluate_bar(&rb_closes, close_dt, (2026, 8, 31, 11, 31, 15)), Some(FinalityStatus::Final));
    assert!(judger.is_bar_final(&rb_closes, close_dt, (2026, 8, 31, 11, 31, 15)));
    // across midnight
    let cu_close = (2026, 9, 1, 1, 0, 0);
    let cu_closes = [(1, 0)];
    assert!(!judger.is_bar_final(&cu_closes, cu_close, (2026, 9, 1, 1, 1, 14)));
    assert!(judger.is_bar_final(&cu_closes, cu_close, (2026, 9, 1, 1, 1, 15)));
    assert_eq!(judger.required_settle_secs(&[(9, 0)], 21, 0), 30);
}

#[test]
fn test_filter_final_rows() {
    let judger = FinalityJudger::default();
    let rb_closes = [(10, 15), (11, 30), (15, 0), (23, 0)];
    let rows = vec!["2026-08-31 11:25:00".to_string(), "2026-08-31 11:30:00".to_string()];
    let kept = judger.filter_final_rows(&rb_closes, &rows, (2026, 8, 31, 11, 30, 35));
    assert_eq!(kept, vec![0]);
    let kept = judger.filter_final_rows(&rb_closes, &rows, (2026, 8, 31, 11, 31, 15));
    assert_eq!(kept, vec![0, 1]);
    let off = FinalityJudger::new(FinalityPolicy { ordinary_settle_secs: 30, close_settle_secs: 75, enabled: false });
    assert_eq!(off.filter_final_rows(&rb_closes, &rows, (2026, 8, 31, 11, 30, 1)), vec![0, 1]);
    let bad = vec!["garbage".to_string()];
    assert_eq!(judger.filter_final_rows(&rb_closes, &bad, (2026, 8, 31, 11, 30, 1)), vec![0]);
}

#[test]
fn test_valid_5m_boundaries() {
    // 2026-08-03 is a Monday (0); 2026-08-09 a Sunday (6)
    assert!(is_valid_5m_trading_boundary(0, 10, 15, 0, 0));
    assert!(is_valid_5m_trading_boundary(0, 11, 30, 0, 0));
    assert!(is_valid_5m_trading_boundary(0, 15, 0, 0, 0));
    assert!(is_valid_5m_trading_boundary(0, 9, 30, 0, 0));
    assert!(is_valid_5m_trading_boundary(0, 14, 55, 0, 0));
    assert!(is_valid_5m_trading_boundary(0, 21, 5, 0, 0));
    assert!(!is_valid_5m_trading_boundary(0, 10, 20, 0, 0));
    assert!(!is_valid_5m_trading_boundary(0, 11, 35, 0, 0));
    assert!(!is_valid_5m_trading_boundary(0, 12, 0, 0, 0));
    assert!(!is_valid_5m_trading_boundary(0, 15, 5, 0, 0));
    assert!(!is_valid_5m_trading_boundary(0, 18, 0, 0, 0));
    assert!(!is_valid_5m_trading_boundary(6, 10, 0, 0, 0));
    // Saturday early morning night close
    assert!(is_valid_5m_trading_boundary(5, 2, 30, 0, 0));
    assert!(!is_valid_5m_trading_boundary(5, 2, 30, 1, 0));
    assert!(!is_valid_5m_trading_boundary(5, 10, 0, 0, 0));
}

#[test]
fn observer_session_decisions() {
    let cfg = FinalityConfig::default();
    assert_eq!(total_probes(cfg.observe_duration_secs, cfg.probe_interval_secs), 25);
    assert_eq!(cfg.sentinels.len(), 7);
    assert_eq!(cfg.sentinels[0], "CJ0");
    let dts = vec!["a".to_string(), "b".to_string(), "a".to_string()];
    assert_eq!(find_probed_bar(&dts, "a"), Some(2));
    assert_eq!(find_probed_bar(&dts, "c"), None);
    assert!(keep_raw_response(false, 0));
    assert!(keep_raw_response(true, 3));
    assert!(!keep_raw_response(false, 3));
}

// The session calendar is passed as each variety's session closes.
#[test]
fn test_night_session_close_variety_recognition() {
    let judger = FinalityJudger::default();
    let rb = [(10, 15), (11, 30), (15, 0), (23, 0)];
    let rb_close = (2026, 8, 31, 23, 0, 0);
    assert_eq!(judger.required_settle_secs(&rb, 23, 0), 75);
    assert!(!judger.is_bar_final(&rb, rb_close, (2026, 8, 31, 23, 1, 14)));
    assert!(judger.is_bar_final(&rb, rb_close, (2026, 8, 31, 23, 1, 15)));

    let cu = [(10, 15), (11, 30), (15, 0), (1, 0)];
    let cu_close = (2026, 9, 1, 1, 0, 0);
    assert_eq!(judger.required_settle_secs(&cu, 1, 0), 75);
    assert!(!judger.is_bar_final(&cu, cu_close, (2026, 9, 1, 1, 1, 14)));
    assert!(judger.is_bar_final(&cu, cu_close, (2026, 9, 1, 1, 1, 15)));

    let sa = [(10, 15), (11, 30), (15, 0), (23, 30)];
    assert_eq!(judger.required_settle_secs(&sa, 23, 30), 75);

    let au = [(10, 15), (11, 30), (15, 0), (2, 30)];
    assert_eq!(judger.required_settle_secs(&au, 2, 30), 75);

    let cj = [(10, 15), (11, 30), (15, 0)];
    assert_eq!(judger.required_settle_secs(&cj, 21, 0), 30);
}

#[test]
fn stricter_strategies_confirm_fewer_bars_and_false_finals_stay_within_confirmations() {
    let mut obs = Vec::new();
    for (i, fp) in ["A", "A", "B", "B", "B"].iter().enumerate() {
        obs.push(dummy_obs("RB0", "t1", (i as i64) * 5000, fp));
    }
    for (i, fp) in ["C", "C", "C", "C"].iter().enumerate() {
        obs.push(dummy_obs("AU0", "t1", (i as i64) * 5000, fp));
    }
    obs.push(dummy_obs("CU0", "t1", 0, "D"));
    let strats = StrategyDef::default_strategies();
    let res = simulate_strategies(&obs, &strats);
    for (i, a) in strats.iter().enumerate() {
        let r = &res[i];
        assert_eq!(r.total_bars, 3);
        assert_eq!(r.confirmed_bars + r.unconfirmed_bars, r.total_bars);
        assert!(r.false_final_count <= r.confirmed_bars);
        for (j, b) in strats.iter().enumerate() {
            if a.min_settle_secs <= b.min_settle_secs
                && a.consecutive_required <= b.consecutive_required
            {
                assert!(res[j].confirmed_bars <= r.confirmed_bars);
            }
        }
    }
    // 0 s / 2 in a row: RB0 confirmed at the second A then revised, AU0 confirmed
    assert_eq!(res[0].confirmed_bars, 2);
    assert_eq!(res[0].false_final_count, 1);
    // 30 s / 3 in a row: no bar has a probe that late
    assert_eq!(res[9].confirmed_bars, 0);
}

#[test]
fn probe_round_count_is_taken_as_i32() {
    assert_eq!(total_probes(0, 5), 1);
    assert_eq!(total_probes(124, 5), 25);
    assert_eq!(total_probes((1u64 << 32) + 5, 1), 6);
}

#[test]
fn one_bar_per_distinct_symbol_and_time() {
    let obs = vec![
        dummy_obs("RB0", "t1", 0, "A"),
        dummy_obs("AU0", "t1", 0, "A"),
        dummy_obs("RB0", "t1", 5000, "A"),
        dummy_obs("RB0", "t2", 0, "A"),
        dummy_obs("AU0", "t1", 5000, "B"),
    ];
    let res = simulate_strategies(&obs, &[StrategyDef::new("one", 0, 1)]);
    assert_eq!(res[0].total_bars, 3);
    assert_eq!(group_probes(&obs).len(), 3);
}
