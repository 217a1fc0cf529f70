use n_core::fetch::kline::{JsonDoc, JsonRow};
use n_core::fetch::search::{record_of_row, records_of_document};
use n_core::fetch::search::{
    contract_matches, fallback_codes, first_symbol_from_json, node_matches, parse_futures_nodes, rank_codes, search_keyword,
    symbol_from_record, symbols_from_json, symbols_from_records, FuturesNode, NodesError, SymbolRecord,
};
use n_core::finality::analysis::{count_trials, group_by_text};
use n_core::finality::model::FinalityTrial;

#[test]
fn keywords_hit_nodes_by_code_prefix_or_name() {
    assert!(node_matches("RB0", "螺纹钢", "RB"));
    assert!(node_matches("RB0", "螺纹钢", "RB2"));
    assert!(node_matches("RB0", "螺纹钢", "R"));
    assert!(!node_matches("RB0", "螺纹钢", "AU"));
    assert!(node_matches("RB0", "螺纹钢", "螺纹"));
    assert!(!node_matches("123", "x", "1"));
    assert!(contract_matches("RB2609", "螺纹2609", "RB26"));
    assert!(contract_matches("RB2609", "螺纹2609", "螺纹"));
    assert!(!contract_matches("RB2609", "螺纹2609", "AU"));
    assert_eq!(search_keyword("  rb "), "RB");
}

#[test]
fn fallback_probes_continuous_and_monthly_codes() {
    let codes = fallback_codes("RB", 2026).unwrap();
    assert_eq!(codes.len(), 25);
    assert_eq!(codes[0], "RB0");
    assert_eq!(codes[1], "RB2601");
    assert_eq!(codes[12], "RB2612");
    assert_eq!(codes[13], "RB2701");
    assert_eq!(codes[24], "RB2712");
    assert!(fallback_codes("", 2026).is_none());
    assert!(fallback_codes("螺纹", 2026).is_none());
    assert!(fallback_codes("R-B", 2026).is_none());
}

#[test]
fn ranking_puts_short_codes_first_and_drops_duplicates() {
    let codes: Vec<String> = ["RB2610", "RB0", "RB2609", "RB0", "RB2611"].iter().map(|s| s.to_string()).collect();
    assert_eq!(rank_codes(&codes, 15), vec![1, 2, 0, 4]);
    assert_eq!(rank_codes(&codes, 2), vec![1, 2]);
    assert!(rank_codes(&codes, 0).is_empty());
}

#[test]
fn node_table_reads_entries_with_optional_base() {
    let js = "var x = 1; ARRFUTURESNODES = { a: ['螺纹钢', 'rb_qh', '16'], b: ['黄金', 'au_qh', '7', 'shfe'] }; tail ['x','y','1']";
    let nodes = parse_futures_nodes(js).unwrap();
    assert_eq!(nodes.len(), 2);
    assert_eq!(nodes[0].variety, "螺纹钢");
    assert_eq!(nodes[0].node, "rb_qh");
    assert_eq!(nodes[0].base, None);
    assert_eq!(nodes[1].base.as_deref(), Some("shfe"));
    assert_eq!(parse_futures_nodes("nothing").unwrap_err(), NodesError::MissingTable);
    assert_eq!(parse_futures_nodes("ARRFUTURESNODES = {").unwrap_err(), NodesError::MissingEnd);
}

#[test]
fn contract_records_need_an_object_with_a_symbol() {
    let node = FuturesNode { variety: "螺纹钢".to_string(), node: "rb_qh".to_string(), base: None };
    let rec = SymbolRecord { is_object: true, symbol: Some("RB2609".to_string()), name: None, exchange: Some("shfe".to_string()) };
    let s = symbol_from_record(&rec, &node).unwrap();
    assert_eq!((s.code.as_str(), s.name.as_str(), s.variety.as_str(), s.exchange.as_str(), s.node.as_str()), ("RB2609", "", "螺纹钢", "shfe", "rb_qh"));
    let bad = SymbolRecord { is_object: true, symbol: None, name: None, exchange: None };
    assert!(symbol_from_record(&bad, &node).is_none());
    assert!(symbols_from_records(&[rec.clone(), bad], &node).is_none());
    assert_eq!(symbols_from_records(&[rec.clone(), rec], &node).unwrap().len(), 2);
}

#[test]
fn grouping_by_text_orders_keys_and_keeps_members_in_order() {
    let keys: Vec<String> = ["night", "day", "night", "close"].iter().map(|s| s.to_string()).collect();
    assert_eq!(group_by_text(&keys), vec![vec![3], vec![1], vec![0, 2]]);
    assert!(group_by_text(&[]).is_empty());
}

fn trial(rev: i32, cand: Option<i64>, ff: bool, last_rev: Option<i64>) -> FinalityTrial {
    FinalityTrial {
        id: None,
        symbol: "RB0".to_string(),
        bar_ts: "2026-08-28 10:45:00".to_string(),
        session_type: "day".to_string(),
        first_seen_at: None,
        first_seen_delay_ms: None,
        candidate_final_at: cand.map(|_| "t".to_string()),
        candidate_delay_ms: cand,
        revision_count: rev,
        last_revision_at: None,
        last_revision_delay_ms: last_rev,
        false_final: ff,
        candidate_fingerprint: None,
        final_fingerprint: None,
        probe_count: 3,
        completed: true,
        created_at: String::new(),
        updated_at: String::new(),
    }
}

#[test]
fn trial_counts() {
    let trials = vec![trial(0, Some(3000), false, None), trial(2, Some(-5), true, Some(9000)), trial(1, None, false, Some(-1))];
    let c = count_trials(&trials, &[0, 1, 2]);
    assert_eq!((c.total_bars, c.bars_with_revision, c.candidate_final_count, c.false_final_count), (3, 2, 2, 1));
    assert_eq!(c.candidate_delays_ms, vec![3000, 0]);
    assert_eq!(c.revision_delays_ms, vec![9000, 0]);
    let only = count_trials(&trials, &[1]);
    assert_eq!(only.total_bars, 1);
}

#[test]
fn parses_futures_nodes_js() {
    let text = "var ARRFUTURESNODES={data:[['黄金','AU0','1000','futures'],['白银','AG0','1000']]};";
    let nodes = parse_futures_nodes(text).unwrap();
    assert_eq!(nodes.len(), 2);
    assert_eq!(nodes[0].node, "AU0");
    assert_eq!(nodes[0].base.as_deref(), Some("futures"));
    assert_eq!(nodes[1].node, "AG0");
    assert_eq!(nodes[1].base, None);
}

#[test]
fn parses_first_symbol_json() {
    let body = r#"[{"symbol":"AU0","name":"黄金","exchange":"SHFE"}]"#;
    let node = FuturesNode { variety: "黄金".to_string(), node: "AU0".to_string(), base: None };
    let row = first_symbol_from_json(body, &node).unwrap();
    assert_eq!(row.code, "AU0");
    assert_eq!(row.name, "黄金");
    assert_eq!(row.exchange, "SHFE");
    assert_eq!(row.variety, "黄金");
}

#[test]
fn contract_lists_read_arrays_and_single_objects() {
    let node = FuturesNode { variety: "黄金".to_string(), node: "hj_qh".to_string(), base: None };
    let list = symbols_from_json(r#"[{"symbol":"AU2612","name":"黄金2612"},{"symbol":"AU2702","exchange":"SHFE"}]"#, &node).unwrap();
    assert_eq!(list.len(), 2);
    assert_eq!((list[0].code.as_str(), list[0].name.as_str(), list[0].exchange.as_str()), ("AU2612", "黄金2612", ""));
    assert_eq!((list[1].code.as_str(), list[1].exchange.as_str(), list[1].node.as_str()), ("AU2702", "SHFE", "hj_qh"));
    assert_eq!(symbols_from_json(r#"{"symbol":"AU0"}"#, &node).unwrap().len(), 1);
    assert!(symbols_from_json(r#"[{"symbol":"AU0"},{"name":"x"}]"#, &node).is_none());
    assert!(symbols_from_json(r#"[{"symbol":1}]"#, &node).is_none());
    assert!(symbols_from_json("not json", &node).is_none());
    assert_eq!(symbols_from_json("[]", &node).unwrap().len(), 0);
    assert!(first_symbol_from_json("[]", &node).is_none());
    assert!(first_symbol_from_json("[1, {\"symbol\":\"AU0\"}]", &node).is_none());
    assert_eq!(first_symbol_from_json(r#"{"symbol":"AU0"}"#, &node).unwrap().code, "AU0");
}

#[test]
fn node_table_grammar_reads_spacing_bases_and_skips_bad_entries() {
    let text = "ARRFUTURESNODES = { a: [ [ '螺纹钢' ,\n 'rb_qh' , '12' ] , ['bad', 'x', '1a'], ['铜','cu_qh','3','qh'], ['','e','1'], ['锌','zn_qh','4', ] , [ '铝' , 'al_qh' , '5' , 'futures' ] ] };";
    let nodes = parse_futures_nodes(text).unwrap();
    let got: Vec<(&str, &str, Option<&str>)> = nodes.iter().map(|n| (n.variety.as_str(), n.node.as_str(), n.base.as_deref())).collect();
    assert_eq!(got, vec![("螺纹钢", "rb_qh", None), ("铜", "cu_qh", Some("qh")), ("铝", "al_qh", Some("futures"))]);
}

#[test]
fn contract_list_records_come_from_objects_only() {
    let obj = JsonRow::Object(vec![
        ("exchange".to_string(), Some("shfe".to_string())),
        ("symbol".to_string(), Some("RB2609".to_string())),
        ("name".to_string(), None),
    ]);
    let r = record_of_row(&obj);
    assert!(r.is_object);
    assert_eq!(r.symbol.as_deref(), Some("RB2609"));
    assert_eq!(r.name, None);
    assert_eq!(r.exchange.as_deref(), Some("shfe"));
    let arr = record_of_row(&JsonRow::Array(vec![Some("symbol".to_string())]));
    assert!(!arr.is_object);
    assert_eq!(arr.symbol, None);
    let single = records_of_document(&JsonDoc::Single(obj.clone()));
    assert_eq!(single.len(), 1);
    let many = records_of_document(&JsonDoc::Array(vec![obj, JsonRow::Other]));
    assert_eq!(many.len(), 2);
    assert!(many[0].is_object && !many[1].is_object);
    // through the parser: a single object, an array, and text that is no JSON
    let node = FuturesNode { variety: "螺纹钢".to_string(), node: "rb_qh".to_string(), base: None };
    assert_eq!(symbols_from_json(r#"{"symbol":"RB2609","name":7}"#, &node).unwrap().len(), 1);
    assert_eq!(symbols_from_json(r#"[{"symbol":"RB2609"},{"symbol":"RB2610"}]"#, &node).unwrap().len(), 2);
    assert!(symbols_from_json("not json", &node).is_none());
    assert!(symbols_from_json(r#"[{"symbol":1}]"#, &node).is_none());
}
