use n_core::analyze::io::infer_symbol;
use std::path::Path;
use n_core::analyze::outcome::{orders_by_settled, GroupBy};
use n_core::analyze::groups::{
    direction_bucket, exit_bucket, gap_bucket, hour_label, level_bucket, oi_bucket, parse_minute, structure_key,
    tp_tier_bucket, trigger_lag_bucket, warning_bars_gap_str,
};
use n_core::analyze::indicators::{bare_expire_ts, days_in_month};
use n_core::analyze::io::split_kline_name;
use n_core::analyze::labels::{direction_label, level_label, num_label, ManualLevelEventKind, ManualLevelRole};
use n_core::analyze::model::{Dir, Grade};
use n_core::analyze::outcome::{ExitReason, Outcome, StatsScope};
use n_core::analyze::time::{format_display_stamp, format_minute_stamp};

#[test]
fn outcome_names_round_trip() {
    for o in [Outcome::Win, Outcome::Loss, Outcome::NoTrigger, Outcome::Open, Outcome::InsufficientData, Outcome::Rollover] {
        assert_eq!(Outcome::parse(o.as_str()), Some(o));
    }
    assert_eq!(Outcome::parse("lost"), None);
    assert!(Outcome::Rollover.is_terminal());
    assert!(Outcome::NoTrigger.is_terminal());
    assert!(!Outcome::Open.is_terminal());
    assert!(!Outcome::InsufficientData.is_terminal());
}

#[test]
fn exit_reasons_and_scopes() {
    assert_eq!(ExitReason::parse("time_exit"), ExitReason::TimeExit);
    assert_eq!(ExitReason::parse("whatever"), ExitReason::NoReason);
    assert_eq!(ExitReason::NoReason.as_str(), "");
    assert_eq!(ExitReason::NoFollow.as_str(), "no_follow");
    assert_eq!(StatsScope::parse("standard"), StatsScope::Standard);
    assert_eq!(StatsScope::parse(""), StatsScope::All);
    assert_eq!(StatsScope::Tradable.as_str(), "tradable");
}

#[test]
fn labels_and_ranks() {
    assert_eq!(Dir::Up.label(), "做多");
    assert_eq!(Dir::Down.label(), "做空");
    assert_eq!(Grade::B.label(), "B级");
    assert_eq!(Grade::TooDeep.rank(), 1);
    assert_eq!(Grade::A.rank(), 4);
    assert_eq!(Grade::Invalid.rank(), 0);
    assert_eq!(level_label("box"), "箱体");
    assert_eq!(level_label("other"), "自定义");
    assert_eq!(direction_label("NEUTRAL"), "震荡");
    assert_eq!(direction_label("STRONG_DOWN"), "强空");
    assert_eq!(num_label(3), "③");
    assert_eq!(num_label(10), "⑩");
    assert_eq!(num_label(0), "[0]");
    assert_eq!(num_label(11), "[11]");
    assert_eq!(ManualLevelRole::Resistance.as_str(), "resistance");
    assert_eq!(ManualLevelEventKind::Test.as_str(), "testing");
}

#[test]
fn bare_signal_expiry_adds_fifteen_minutes() {
    assert_eq!(bare_expire_ts("2026-07-31 23:50:00"), "2026-08-01 00:05:00");
    assert_eq!(bare_expire_ts("2024-02-28 23:55"), "2024-02-29 00:10:00");
    assert_eq!(bare_expire_ts("2026-12-31 23:45:00"), "2027-01-01 00:00:00");
    assert_eq!(bare_expire_ts("2026-07-31"), "2026-07-31");
    assert_eq!(bare_expire_ts("2026-13-31 23:50:00"), "2027-01-01 00:05:00");
    assert_eq!(days_in_month(2100, 2), 28);
    assert_eq!(days_in_month(2000, 2), 29);
}

#[test]
fn kline_file_names() {
    assert_eq!(split_kline_name("RB0_15m.csv"), Some(("RB0".to_string(), String::new(), true)));
    assert_eq!(split_kline_name("RB0_60m_v2.csv"), Some(("RB0".to_string(), "_v2".to_string(), false)));
    assert_eq!(split_kline_name("_15m.csv"), None);
    assert_eq!(split_kline_name("RB0_15m.txt"), None);
}

#[test]
fn time_stamps_are_zero_padded() {
    assert_eq!(format_minute_stamp((2026, 8, 5, 9, 7)), "20260805_0907");
    assert_eq!(format_display_stamp((2026, 8, 5, 9, 7)), "2026-08-05 09:07");
}


#[test]
fn minutes_read_with_or_without_seconds() {
    assert_eq!(parse_minute("2026-08-05 09:35:00"), Some((2026, 8, 5, 9, 35)));
    assert_eq!(parse_minute("2026-08-05 21:05"), Some((2026, 8, 5, 21, 5)));
    assert_eq!(parse_minute("2026-08-05"), None);
}

#[test]
fn warning_bar_distances() {
    assert_eq!(warning_bars_gap_str("2026-08-05 10:15", "2026-08-05 09:45:00"), Some(2));
    assert_eq!(warning_bars_gap_str("2026-08-05 10:14", "2026-08-05 10:00"), Some(0));
    assert_eq!(warning_bars_gap_str("2026-08-05 09:00", "2026-08-05 10:00"), Some(0));
    assert_eq!(warning_bars_gap_str("2026-08-06 09:00", "2026-08-05 09:00"), Some(96));
    assert_eq!(warning_bars_gap_str("bad", "2026-08-05 10:00"), None);
}

#[test]
fn hour_groups_prefer_the_warning_time() {
    assert_eq!(hour_label(Some("2026-08-05 21:05:00"), "2026-08-05 09:00:00"), "21:00");
    assert_eq!(hour_label(Some(""), "2026-08-05 09:00:00"), "09:00");
    assert_eq!(hour_label(None, "garbage"), "未知");
}

#[test]
fn structure_keys() {
    assert_eq!(structure_key("RB0", "4", "up", "fine", Some("s1"), Some("s2"), 7), "RB0|4|up|fine|s1|s2");
    assert_eq!(structure_key("RB0", "4", "up", "fine", Some("s1"), None, 42), "RB0|4|up|fine|id42");
    assert_eq!(structure_key("AU0", "1", "down", "large", None, None, -3), "AU0|1|down|large|id-3");
}

#[test]
fn categorical_groups() {
    assert_eq!(direction_bucket("up"), "做多");
    assert_eq!(direction_bucket("down"), "做空");
    assert_eq!(level_bucket("fine"), "精细");
    assert_eq!(level_bucket("box"), "较大");
    assert_eq!(oi_bucket(None), "数据缺失");
    assert_eq!(oi_bucket(Some(true)), "增仓");
    assert_eq!(exit_bucket(Some(ExitReason::TimeExit)), "时间退出");
    assert_eq!(exit_bucket(Some(ExitReason::NoReason)), "其他");
    assert_eq!(exit_bucket(None), "其他");
    assert_eq!(trigger_lag_bucket(Some(1)), "1");
    assert_eq!(trigger_lag_bucket(Some(3)), "2-3");
    assert_eq!(trigger_lag_bucket(Some(12)), "7-12");
    assert_eq!(trigger_lag_bucket(Some(0)), ">12");
    assert_eq!(trigger_lag_bucket(None), "数据缺失");
    assert_eq!(tp_tier_bucket(Some("tp2")), "TP2扩展止盈");
    assert_eq!(tp_tier_bucket(Some("tp3")), "其他");
    assert_eq!(gap_bucket(true, false), "入场跳空");
    assert_eq!(gap_bucket(false, false), "无跳空");
}

#[test]
fn symbol_inferred_from_bar_file_names() {
    assert_eq!(infer_symbol(Path::new("data/RB0_15m_main.csv")).as_deref(), Some("RB0"));
    assert_eq!(infer_symbol(Path::new("data/AU0_60m.csv")).as_deref(), Some("AU0"));
    assert_eq!(infer_symbol(Path::new("data/notes.txt")), None);
    assert_eq!(infer_symbol(Path::new("data/_15m.csv")), None);
}

#[test]
fn nominal_dimensions_order_by_settled_count() {
    assert!(orders_by_settled(GroupBy::Symbol));
    assert!(orders_by_settled(GroupBy::Hour));
    assert!(!orders_by_settled(GroupBy::ScoreBand));
    assert!(!orders_by_settled(GroupBy::SymbolHour));
}
