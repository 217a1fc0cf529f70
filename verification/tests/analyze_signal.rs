use n_core::analyze::labels::SingleReversalKind;
use n_core::analyze::model::Dir;
use n_core::analyze::signal::{
    a_leg_strong_count, b_leg_reverse_count, build_note, count_flags, entry_blocks, find_warning, first_per_structure,
    join_texts,
    latest_pattern, no_warning_note, signal_priority, triggered_state, WarningFacts, WarningSearch,
};

#[test]
fn counts_flags_over_a_closed_range() {
    let flags = [(true, false), (false, true), (true, true), (false, false), (true, false)];
    assert_eq!(count_flags(&flags, 0, 4, true), 3);
    assert_eq!(count_flags(&flags, 1, 3, false), 2);
    assert_eq!(count_flags(&flags, 3, 3, true), 0);
}

#[test]
fn a_leg_counts_trend_candles_in_the_trade_direction() {
    let flags = [(true, false), (false, true), (true, true), (false, true)];
    assert_eq!(a_leg_strong_count(Dir::Up, 0, 2, &flags), 2);
    assert_eq!(a_leg_strong_count(Dir::Down, 0, 3, &flags), 3);
}

#[test]
fn b_leg_counts_candles_against_the_trade() {
    let flags = [(true, false), (false, true), (true, true), (false, true)];
    assert_eq!(b_leg_reverse_count(Dir::Up, 0, 3, &flags), 3);
    assert_eq!(b_leg_reverse_count(Dir::Down, 0, 3, &flags), 1);
    assert_eq!(b_leg_reverse_count(Dir::Down, 3, 3, &flags), 0);
}

#[test]
fn latest_pattern_takes_the_last_b_end_and_the_first_on_ties() {
    let pats = [(Dir::Up, 10), (Dir::Down, 30), (Dir::Up, 25), (Dir::Up, 25), (Dir::Down, 12)];
    assert_eq!(latest_pattern(&pats, Dir::Up), Some(2));
    assert_eq!(latest_pattern(&pats, Dir::Down), Some(1));
    assert_eq!(latest_pattern(&pats[..1], Dir::Down), None);
}

#[test]
fn active_states_sort_before_the_rest() {
    assert_eq!(signal_priority("即将触发"), 0);
    assert_eq!(signal_priority("当前已触发"), 1);
    assert_eq!(signal_priority("已触发，接近时效边界"), 2);
    assert_eq!(signal_priority("已过时，仅复盘"), 3);
}

#[test]
fn triggered_state_follows_the_age() {
    assert_eq!(triggered_state(true, 0), "结构失效");
    assert_eq!(triggered_state(false, 2), "当前已触发");
    assert_eq!(triggered_state(false, 3), "已触发，接近时效边界");
    assert_eq!(triggered_state(false, 6), "已触发，接近时效边界");
    assert_eq!(triggered_state(false, 7), "已过时，仅复盘");
}

#[test]
fn join_matches_std_join() {
    assert_eq!(join_texts(&["a", "bc", ""], "；"), ["a", "bc", ""].join("；"));
    assert_eq!(join_texts(&[], "+"), "");
    assert_eq!(join_texts(&["x"], "+"), "x");
}

#[test]
fn notes_list_the_flags_in_order() {
    assert_eq!(build_note(false, false, false, false, false, false), "前低/前高为决策点，不必然止盈");
    assert_eq!(
        build_note(true, true, false, true, false, true),
        "C级默认半仓，需更严格触发；a段偏长；b段动能衰减；决策点RR不足1，可按破位预期评估；前低/前高为决策点，不必然止盈"
    );
}

#[test]
fn entry_blocks_count_and_describe() {
    assert_eq!(entry_blocks(Dir::Up, false, false, false), (0, String::new()));
    assert_eq!(entry_blocks(Dir::Up, true, false, true), (2, "b段末K大实体阴线 + 触发K线长上影".to_string()));
    assert_eq!(entry_blocks(Dir::Down, false, true, false), (1, "前一根大实体阳线".to_string()));
}

#[test]
fn no_warning_note_names_the_guard() {
    assert_eq!(no_warning_note(false, true, true), "b端后尚未出现与原方向一致的反转预警");
    assert_eq!(no_warning_note(true, true, true), "2.0要求预警K线必须为强反转/长影线形态，等待更强反转确认");
    assert!(no_warning_note(true, true, false).starts_with("b段末为强反向实体"));
    assert!(no_warning_note(true, false, false).starts_with("B/C级结构要求"));
}

fn facts(opposite: &[bool], first: &[Option<SingleReversalKind>], later: &[Option<SingleReversalKind>], strong: &[bool], covers_all: bool) -> WarningFacts {
    let n = opposite.len();
    WarningFacts {
        opposite: opposite.to_vec(),
        single_first: first.to_vec(),
        single_later: later.to_vec(),
        anchor_strong: strong.to_vec(),
        covers: (0..n).map(|_| vec![covers_all; n]).collect(),
    }
}

#[test]
fn the_b_end_itself_warns_when_it_reverses() {
    let f = facts(&[false; 4], &[None; 4], &[None; 4], &[false; 4], false);
    match find_warning(&f, 0, 4, Some(SingleReversalKind::Wick), false, false) {
        WarningSearch::Found { index, kind, cumulative } => {
            assert_eq!((index, kind, cumulative), (0, "wick", false));
        }
        WarningSearch::Missing { .. } => panic!("expected a warning"),
    }
}

#[test]
fn a_single_reversal_after_the_b_end_warns() {
    let s = Some(SingleReversalKind::Strong);
    let f = facts(&[false, false, true, true], &[None, None, None, s], &[None, None, None, s], &[false; 4], false);
    match find_warning(&f, 0, 4, None, false, false) {
        WarningSearch::Found { index, kind, cumulative } => assert_eq!((index, kind, cumulative), (3, "strong", false)),
        WarningSearch::Missing { .. } => panic!("expected a warning"),
    }
}

#[test]
fn coverage_warns_from_the_second_bar_of_a_guarded_run() {
    let f = facts(&[false, true, true, false], &[None; 4], &[None; 4], &[true, false, false, false], true);
    match find_warning(&f, 0, 4, None, false, false) {
        WarningSearch::Found { index, kind, cumulative } => assert_eq!((index, kind, cumulative), (2, "cumulative", true)),
        WarningSearch::Missing { .. } => panic!("expected a warning"),
    }
    match find_warning(&f, 0, 4, None, false, true) {
        WarningSearch::Missing { guard_active, guard_anchor_strong } => assert_eq!((guard_active, guard_anchor_strong), (true, true)),
        WarningSearch::Found { .. } => panic!("2.0 rules take no coverage"),
    }
}

#[test]
fn without_opposite_closes_nothing_is_guarded() {
    let f = facts(&[false; 5], &[None; 5], &[None; 5], &[true; 5], true);
    match find_warning(&f, 0, 5, None, true, false) {
        WarningSearch::Missing { guard_active, guard_anchor_strong } => assert_eq!((guard_active, guard_anchor_strong), (false, false)),
        WarningSearch::Found { .. } => panic!("no bar closes against the b-leg"),
    }
}

#[test]
fn first_per_structure_keeps_the_first_of_each_key() {
    let keys = [(Dir::Up, 3, 7), (Dir::Down, 3, 7), (Dir::Up, 3, 7), (Dir::Up, 4, 7), (Dir::Down, 3, 7)];
    assert_eq!(first_per_structure(&keys), vec![0, 1, 3]);
    assert!(first_per_structure(&[]).is_empty());
}

#[test]
fn a_leg_strong_count_counts_directional_flags() {
    // dir=Up, s0=0, s1=5
    let flags = vec![(false, false), (true, false), (false, true), (true, false), (false, false), (true, false)];
    assert_eq!(a_leg_strong_count(Dir::Up, 0, 5, &flags), 3);
    assert_eq!(a_leg_strong_count(Dir::Down, 0, 5, &flags), 1);
}

#[test]
fn structures_differing_in_a_leg_end_or_direction_all_stay() {
    assert_eq!(first_per_structure(&[(Dir::Down, 5, 9), (Dir::Down, 6, 9)]), vec![0, 1]);
    assert_eq!(first_per_structure(&[(Dir::Down, 5, 9), (Dir::Up, 5, 9)]), vec![0, 1]);
    assert_eq!(first_per_structure(&[(Dir::Down, 5, 9), (Dir::Down, 5, 9)]), vec![0]);
}
