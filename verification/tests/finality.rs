use n_core::finality::model::{normalize_num_str, BarFingerprint, SessionType};
use n_core::finality::tracker::BarFinalityTracker;

#[test]
fn test_normalize_num_str() {
    assert_eq!(normalize_num_str("8260.00"), "8260");
    assert_eq!(normalize_num_str("8260.500"), "8260.5");
    assert_eq!(normalize_num_str("8260"), "8260");
    assert_eq!(normalize_num_str("0.00"), "0");
    assert_eq!(normalize_num_str(""), "0");
}

#[test]
fn normalize_num_str_edge_cases() {
    assert_eq!(normalize_num_str("  12.3400 "), "12.34");
    assert_eq!(normalize_num_str("-0.000"), "0");
    assert_eq!(normalize_num_str("+.0"), "0");
    assert_eq!(normalize_num_str(".50"), "0.5");
    assert_eq!(normalize_num_str("-3.10"), "-3.1");
    assert_eq!(normalize_num_str("   "), "0");
}

#[test]
fn test_fingerprint_equality() {
    let fp1 = BarFingerprint::new("2026-08-28 10:45:00", "8260.00", "8265.0", "8250", "8255.000", "100.0", "5000");
    let fp2 = BarFingerprint::new("2026-08-28 10:45:00", "8260", "8265", "8250.00", "8255", "100", "5000.0");
    assert_eq!(fp1, fp2);
    assert_eq!(fp1.signature(), fp2.signature());
    assert!(fp1.same_as(&fp2));
}

#[test]
fn fingerprint_signature_layout() {
    let fp = BarFingerprint::new("2026-08-28 10:45:00", "1.50", "2", "0.5", "1.5", "100", "1000");
    assert_eq!(fp.signature(), "O:1.5 H:2 L:0.5 C:1.5 V:100 P:1000");
    let other = BarFingerprint::new("2026-08-28 10:45:00", "1.50", "2", "0.5", "1.6", "100", "1000");
    assert!(!fp.same_as(&other));
}

#[test]
fn test_session_type_classify() {
    assert_eq!(SessionType::classify("RB0", "2026-08-28 10:15:00"), SessionType::Close1015);
    assert_eq!(SessionType::classify("CJ0", "2026-08-28 11:30:00"), SessionType::Close1130);
    assert_eq!(SessionType::classify("CJ0", "2026-08-28 15:00:00"), SessionType::Close1500);
    assert_eq!(SessionType::classify("RB0", "2026-08-28 23:00:00"), SessionType::NightClose2300);
    assert_eq!(SessionType::classify("PB0", "2026-08-28 01:00:00"), SessionType::NightClose0100);
    assert_eq!(SessionType::classify("AU0", "2026-08-28 02:30:00"), SessionType::NightClose0230);
    assert_eq!(SessionType::classify("RB0", "2026-08-28 10:45:00"), SessionType::Normal);
}

#[test]
fn session_type_classify_unreadable_is_normal() {
    assert_eq!(SessionType::classify("RB0", "not a time"), SessionType::Normal);
    assert_eq!(SessionType::classify("SA0", "2026-08-28 23:30:00"), SessionType::NightClose2300);
}

#[test]
fn session_type_names_round_trip() {
    let all = [
        SessionType::Normal,
        SessionType::Close1015,
        SessionType::Close1130,
        SessionType::Close1500,
        SessionType::NightClose2300,
        SessionType::NightClose0100,
        SessionType::NightClose0230,
        SessionType::NightCloseOther,
    ];
    for t in all {
        assert_eq!(SessionType::from_str_name(t.as_str()), t);
    }
    assert_eq!(SessionType::from_str_name("bogus"), SessionType::NightCloseOther);
    assert_eq!(SessionType::Close1015.as_str(), "10:15");
}

fn fp(val: &str) -> BarFingerprint {
    BarFingerprint::new("2026-08-28 10:45:00", val, val, val, val, "100", "1000")
}

#[test]
fn test_candidate_final_normal_flow() {
    let mut tracker = BarFinalityTracker::new("RB0", "2026-08-28 10:45:00", SessionType::Normal);
    let res1 = tracker.record_probe("10:45:00", 0, fp("100"));
    assert_eq!(res1.same_count, 1);
    assert!(!res1.became_candidate_final);

    let res2 = tracker.record_probe("10:45:05", 5000, fp("100"));
    assert_eq!(res2.same_count, 2);
    assert!(!res2.became_candidate_final);

    let res3 = tracker.record_probe("10:45:10", 10000, fp("100"));
    assert_eq!(res3.same_count, 3);
    assert!(res3.became_candidate_final);
    assert_eq!(tracker.candidate_delay_ms, Some(10000));
    assert_eq!(tracker.candidate_final_at.as_deref(), Some("10:45:10"));

    let res4 = tracker.record_probe("10:45:15", 15000, fp("100"));
    assert_eq!(res4.same_count, 4);
    assert!(!res4.became_candidate_final);
    assert_eq!(tracker.candidate_delay_ms, Some(10000));
    assert!(!tracker.false_final);
}

#[test]
fn test_candidate_final_late_revision_triggers_false_final() {
    let mut tracker = BarFinalityTracker::new("CJ0", "2026-08-28 11:30:00", SessionType::Close1130);
    tracker.record_probe("11:30:00", 0, fp("100"));
    tracker.record_probe("11:30:05", 5000, fp("100"));
    let res3 = tracker.record_probe("11:30:10", 10000, fp("100"));
    assert!(res3.became_candidate_final);
    assert!(!tracker.false_final);

    tracker.record_probe("11:30:15", 15000, fp("100"));
    tracker.record_probe("11:30:20", 20000, fp("100"));

    let res_late = tracker.record_probe("11:30:25", 25000, fp("105"));
    assert!(res_late.is_revision);
    assert!(res_late.became_false_final);
    assert!(tracker.false_final);
    assert_eq!(tracker.candidate_delay_ms, Some(10000));
    assert_eq!(tracker.last_revision_delay_ms, Some(25000));
    assert_eq!(tracker.revision_count, 1);
}

#[test]
fn test_early_revision_then_stabilize() {
    let mut tracker = BarFinalityTracker::new("PB0", "2026-08-28 11:30:00", SessionType::Close1130);
    tracker.record_probe("11:30:00", 0, fp("100"));
    let res2 = tracker.record_probe("11:30:05", 5000, fp("102"));
    assert!(res2.is_revision);
    assert_eq!(res2.same_count, 1);
    assert!(!res2.became_candidate_final);
    assert!(!tracker.false_final);

    tracker.record_probe("11:30:10", 10000, fp("102"));
    let res4 = tracker.record_probe("11:30:15", 15000, fp("102"));
    assert!(res4.became_candidate_final);
    assert_eq!(tracker.candidate_delay_ms, Some(15000));
    assert!(!tracker.false_final);
    assert_eq!(tracker.revision_count, 1);
    assert_eq!(tracker.last_revision_delay_ms, Some(5000));
}

#[test]
fn tracker_second_revision_does_not_repeat_false_final() {
    let mut tracker = BarFinalityTracker::new("RB0", "2026-08-28 10:45:00", SessionType::Normal);
    for (i, v) in ["1", "1", "1", "2", "3"].iter().enumerate() {
        let r = tracker.record_probe("t", i as i64 * 5000, fp(v));
        if i == 3 {
            assert!(r.became_false_final);
        }
        if i == 4 {
            assert!(r.is_revision);
            assert!(!r.became_false_final);
        }
    }
    assert_eq!(tracker.revision_count, 2);
    assert_eq!(tracker.probe_count, 5);
    let trial = tracker.to_trial(true, "2026-08-28 10:47:00");
    assert_eq!(trial.revision_count, 2);
    assert_eq!(trial.probe_count, 5);
    assert!(trial.false_final);
    assert!(trial.completed);
    assert_eq!(trial.session_type, "normal");
    assert_eq!(trial.updated_at, "2026-08-28 10:47:00");
    assert_eq!(trial.final_fingerprint.as_deref(), Some("O:3 H:3 L:3 C:3 V:100 P:1000"));
    assert_eq!(trial.candidate_fingerprint.as_deref(), Some("O:1 H:1 L:1 C:1 V:100 P:1000"));
}

#[test]
fn normalizing_twice_or_after_a_padding_zero_changes_nothing() {
    for s in ["-.50", "+.0", "-0.000", ".", "-", "+12.3400", "0.5", "007.10", "-3.", "12"] {
        let n = normalize_num_str(s);
        assert_eq!(normalize_num_str(&n), n, "{s}");
        if s.contains('.') {
            assert_eq!(normalize_num_str(&format!("{s}0")), n, "{s}");
        }
    }
    assert_eq!(normalize_num_str("-.50"), "-.5");
    assert_eq!(normalize_num_str("+.0"), "0");
    assert_eq!(normalize_num_str("-0.000"), "0");
}
