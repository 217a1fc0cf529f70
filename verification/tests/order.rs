use n_core::order::sort_by_texts;

fn keys(rows: &[&[&str]]) -> Vec<Vec<String>> {
    rows.iter().map(|r| r.iter().map(|s| s.to_string()).collect()).collect()
}

#[test]
fn sorts_by_exchange_then_code_then_variety() {
    let k = keys(&[&["SHFE", "RB0", "螺纹钢"], &["DCE", "M0", "豆粕"], &["SHFE", "AU0", "黄金"], &["CZCE", "SR0", "白糖"]]);
    assert_eq!(sort_by_texts(&k), vec![3, 1, 2, 0]);
}

#[test]
fn equal_keys_keep_their_order() {
    let k = keys(&[&["b"], &["a"], &["b"], &["a"]]);
    assert_eq!(sort_by_texts(&k), vec![1, 3, 0, 2]);
}

#[test]
fn later_texts_break_ties_and_prefixes_come_first() {
    let k = keys(&[&["x", "2"], &["x", "10"], &["x"], &["w", "9"]]);
    assert_eq!(sort_by_texts(&k), vec![3, 2, 1, 0]);
}

#[test]
fn text_order_is_by_code_point() {
    let k = keys(&[&["ab"], &["a"], &["B"], &["é"], &[""]]);
    assert_eq!(sort_by_texts(&k), vec![4, 2, 1, 0, 3]);
}

#[test]
fn empty_input_gives_empty_order() {
    let k: Vec<Vec<String>> = Vec::new();
    assert!(sort_by_texts(&k).is_empty());
}
