use n_core::fetch::kline::{jsonp_payload, jsonp_rows, latest_rows, normalize_datetime, row_fields, JsonRow, JsonpError, RowError};

fn to_row(v: &serde_json::Value) -> JsonRow {
    if let Some(obj) = v.as_object() {
        JsonRow::Object(obj.iter().map(|(k, x)| (k.clone(), x.as_str().map(|s| s.to_string()))).collect())
    } else if let Some(arr) = v.as_array() {
        JsonRow::Array(arr.iter().map(|x| x.as_str().map(|s| s.to_string())).collect())
    } else {
        JsonRow::Other
    }
}

#[test]
fn parses_jsonp_array_rows() {
    let text = r#"var _RB0_15_0_=([["2026-08-02 09:00:00","1","2","0.5","1.5","100","1000"],["2026-08-02 09:05:00","1.5","2.5","1","2","200","1000"]]);"#;
    let json = jsonp_payload(text).unwrap();
    let value: serde_json::Value = serde_json::from_str(&json).unwrap();
    let rows: Vec<Vec<String>> = value.as_array().unwrap().iter().map(|v| row_fields(&to_row(v)).unwrap()).collect();
    assert_eq!(rows.len(), 2);
    assert_eq!(normalize_datetime(&rows[0][0]).unwrap(), "2026-08-02 09:00:00");
    let close: f64 = rows[1][4].parse().unwrap();
    let volume: f64 = rows[1][5].parse().unwrap();
    assert_eq!(close, 2.0);
    assert_eq!(volume, 200.0);
}

#[test]
fn jsonp_framing_variants() {
    assert_eq!(jsonp_payload("x = ( [1] ) ;\n").as_deref(), Some("[1]"));
    assert_eq!(jsonp_payload("cb=[2];").as_deref(), Some("[2]"));
    assert_eq!(jsonp_payload("a=1;b=([3])").as_deref(), Some("[3]"));
    assert_eq!(jsonp_payload("no payload"), None);
}

#[test]
fn object_rows_and_row_errors() {
    let v: serde_json::Value =
        serde_json::from_str(r#"{"d":"2026-08-02 09:00:00","o":"1","h":"2","l":"0.5","c":"1.5","v":"100","p":"1000"}"#).unwrap();
    let f = row_fields(&to_row(&v)).unwrap();
    assert_eq!(f[0], "2026-08-02 09:00:00");
    assert_eq!(f[6], "1000");
    let missing: serde_json::Value = serde_json::from_str(r#"{"d":"x","o":"1","h":2}"#).unwrap();
    assert_eq!(row_fields(&to_row(&missing)), Err(RowError::MissingField(2)));
    let short: serde_json::Value = serde_json::from_str(r#"["a","b"]"#).unwrap();
    assert_eq!(row_fields(&to_row(&short)), Err(RowError::TooFewFields(2)));
    let num: serde_json::Value = serde_json::from_str(r#"["a","b","c",4,"e","f","g"]"#).unwrap();
    assert_eq!(row_fields(&to_row(&num)), Err(RowError::NotText(3)));
    assert_eq!(row_fields(&JsonRow::Other), Err(RowError::UnexpectedRow));
}

#[test]
fn latest_rows_dedups_and_keeps_count() {
    let dts = vec!["2026-08-02 09:00:00".to_string(), "2026-08-02 09:00:00".to_string(), "2026-08-02 09:05:00".to_string()];
    let kept = latest_rows(&dts, 1);
    assert_eq!(kept.len(), 1);
    assert_eq!(dts[kept[0]], "2026-08-02 09:05:00");
}

#[test]
fn latest_rows_sorts_and_keeps_first_of_duplicates() {
    let dts: Vec<String> = ["b", "a", "c", "a", "b"].iter().map(|s| s.to_string()).collect();
    assert_eq!(latest_rows(&dts, 10), vec![1, 0, 2]);
    assert_eq!(latest_rows(&dts, 2), vec![0, 2]);
    assert!(latest_rows(&dts, 0).is_empty());
    assert!(latest_rows(&[], 3).is_empty());
}

#[test]
fn jsonp_rows_read_each_row_in_order() {
    let text = r#"var _x=([{"d":"2026-08-03 21:05:00","o":"1","h":"2","l":"0.5","c":"1.5","v":"10","p":"20"},["2026-08-03 21:10:00","1","2","0","1","5"],7]);"#;
    let rows = jsonp_rows(text).unwrap();
    assert_eq!(rows.len(), 3);
    assert_eq!(rows[0].as_ref().unwrap()[0], "2026-08-03 21:05:00");
    assert_eq!(rows[0].as_ref().unwrap()[6], "20");
    assert_eq!(rows[1], Err(RowError::TooFewFields(6)));
    assert_eq!(rows[2], Err(RowError::UnexpectedRow));
    assert_eq!(jsonp_rows("no payload"), Err(JsonpError::NoPayload));
    assert_eq!(jsonp_rows("x=([1,"), Err(JsonpError::BadJson));
    assert_eq!(jsonp_rows("x=({\"a\":1})"), Err(JsonpError::NotArray));
}
