use n_core::backup::{integrity_ok, sha256_hex, snapshot_file_names, to_hex, vacuum_into_sql};
use n_core::config::{
    default_logic_version, default_timeframes, get_bool, get_str, get_u16, get_u64, get_usize, legacy_keys, AppConfig,
    FetchConfig, LogConfig, QuoteConfig, UiConfig,
};

fn pairs(kv: &[(&str, &str)]) -> Vec<(String, String)> {
    kv.iter().map(|(k, v)| (k.to_string(), v.to_string())).collect()
}

#[test]
fn defaults_match_the_documented_values() {
    let app = AppConfig::default();
    assert!(app.auto_start_scheduler);
    assert_eq!(app.logic_version, "1");
    let f = FetchConfig::default();
    assert_eq!((f.request_interval_ms, f.minutely_budget, f.backfill_count, f.incremental_count), (400, 60, 1000, 10));
    let q = QuoteConfig::default();
    assert_eq!((q.poll_interval_ms, q.request_interval_ms, q.minutely_budget), (3000, 200, 120));
    assert_eq!(LogConfig::default().level, "info");
    let ui = UiConfig::default();
    assert_eq!((ui.flash_ms, ui.breathe_hold_ms, ui.min_bar_spacing, ui.chart_display_bars, ui.chart_right_gap), (900, 5000, 8, 140, 10));
    assert_eq!(ui.timeframes, vec!["5m", "15m", "30m", "60m", "120m", "240m", "1d"]);
    assert!(ui.last_group_id.is_none());
    assert_eq!(default_timeframes().len(), 7);
    assert_eq!(default_logic_version(), "1");
    assert_eq!(legacy_keys().len(), 16);
}

#[test]
fn migrates_legacy_settings() {
    let map = pairs(&[
        ("request_interval_ms", "500"),
        ("minutely_budget", "45"),
        ("backfill_count", "500"),
        ("incremental_count", "5"),
        ("auto_start_scheduler", "false"),
        ("log_level", "debug"),
        ("scheduler_last_refresh", "2026-08-06 09:00:00"),
    ]);
    let f = FetchConfig::from_legacy(&map);
    assert_eq!((f.request_interval_ms, f.minutely_budget, f.backfill_count, f.incremental_count), (500, 45, 500, 5));
    let app = AppConfig::from_legacy(&map);
    assert!(!app.auto_start_scheduler);
    assert_eq!(app.logic_version, "1");
    assert_eq!(LogConfig::from_legacy(&map).level, "debug");
    let empty = FetchConfig::from_legacy(&[]);
    assert_eq!(empty.request_interval_ms, 400);
}

#[test]
fn legacy_values_that_do_not_read_fall_back() {
    let map = pairs(&[("a", "TRUE"), ("b", "-1"), ("c", "70000"), ("d", "+12"), ("a", "true")]);
    assert!(!get_bool(&map, "a", false));
    assert_eq!(get_u64(&map, "b", 7), 7);
    assert_eq!(get_u16(&map, "c", 25), 25);
    assert_eq!(get_usize(&map, "d", 0), 12);
    assert_eq!(get_str(&map, "zz", "dflt"), "dflt");
    assert_eq!(get_str(&map, "b", "dflt"), "-1");
}

#[test]
fn snapshot_names_and_statement() {
    let (raw, gz) = snapshot_file_names("abc");
    assert_eq!(raw, "ntrend-snapshot-abc.sqlite");
    assert_eq!(gz, "ntrend-snapshot-abc.sqlite.gz");
    assert_eq!(vacuum_into_sql("C:\\data\\snap.sqlite"), "VACUUM INTO 'C:/data/snap.sqlite'");
    assert!(integrity_ok(Some("ok")));
    assert!(!integrity_ok(Some("row 3 missing")));
    assert!(!integrity_ok(None));
}

#[test]
fn digests_print_in_lower_hex() {
    assert_eq!(to_hex(&[0x00, 0x0f, 0xab, 0xff]), "000fabff");
    assert_eq!(sha256_hex(b"abc"), "ba7816bf8f01cfea414140de5dae2223b00361a396177a9cb410ff61f20015ad");
    assert_eq!(sha256_hex(b"").len(), 64);
}
