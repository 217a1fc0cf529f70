use n_core::fetch::kline::{normalize_datetime, parse_symbol_list, DatetimeError};
use n_core::fetch::symbols::{encode_gbk_query, extract_quote_name, hq_all_data_urls, hq_data_urls, node_bases, percent_encode_bytes};

#[test]
fn symbol_list_skips_comments_and_duplicates() {
    let symbols = parse_symbol_list("# 注释\nRB0\nAU0\nRB0\n\nIF0 // 行尾注释\n,AU0,\n");
    assert_eq!(symbols, vec!["RB0", "AU0", "IF0"]);
}

#[test]
fn symbol_list_handles_bom_crlf_case_and_separators() {
    let symbols = parse_symbol_list("\u{feff}rb0;\r\n// x\r\n  cu0 extra\r\n;;\r\nag0,");
    assert_eq!(symbols, vec!["RB0", "CU0", "AG0"]);
    assert!(parse_symbol_list("").is_empty());
}

#[test]
fn normalizes_datetimes() {
    assert_eq!(normalize_datetime("2026/8/2 9:5").unwrap(), "2026-08-02 09:05:00");
    assert_eq!(normalize_datetime("2026-08-02").unwrap(), "2026-08-02 00:00:00");
    assert_eq!(normalize_datetime(" 2026-8-2  13:30:07 ").unwrap(), "2026-08-02 13:30:07");
    assert_eq!(normalize_datetime("-5-1-1 1:2:3").unwrap_err(), DatetimeError::InvalidYear);
    assert_eq!(normalize_datetime("5-1-1 -1:2:3").unwrap(), "0005-01-01 -1:02:03");
    assert_eq!(normalize_datetime("").unwrap_err(), DatetimeError::MissingDate);
    assert_eq!(normalize_datetime("2026-08").unwrap_err(), DatetimeError::InvalidDate);
    assert_eq!(normalize_datetime("2026-x-01").unwrap_err(), DatetimeError::InvalidMonth);
    assert_eq!(normalize_datetime("2026-08-x").unwrap_err(), DatetimeError::InvalidDay);
    assert_eq!(normalize_datetime("2026-08-01 10").unwrap_err(), DatetimeError::InvalidTime);
    assert_eq!(normalize_datetime("2026-08-01 x:1").unwrap_err(), DatetimeError::InvalidHour);
    assert_eq!(normalize_datetime("2026-08-01 1:x").unwrap_err(), DatetimeError::InvalidMinute);
    assert_eq!(normalize_datetime("2026-08-01 1:2:x").unwrap_err(), DatetimeError::InvalidSecond);
    assert_eq!(normalize_datetime("2026-08-01-07 1:2:3:4").unwrap(), "2026-08-01 01:02:03");
}

#[test]
fn bases_follow_precedence_and_always_include_futures() {
    assert_eq!(node_bases(&None), vec!["futures"]);
    assert_eq!(node_bases(&Some("futures".to_string())), vec!["futures"]);
    assert_eq!(node_bases(&Some("qh".to_string())), vec!["qh", "futures"]);
    assert_eq!(node_bases(&Some(String::new())), vec!["futures"]);
}

#[test]
fn extracts_names_from_quote_lines() {
    assert_eq!(
        extract_quote_name("硅铁连续,150000,5770.000,5766.000").as_deref(),
        Some("硅铁连续")
    );
    assert_eq!(
        extract_quote_name("PVC2609,6500.000,6600.000,6400.000,0.000,2026-08-08,15:00:00").as_deref(),
        Some("PVC2609")
    );
    let if0_body = "4526.400,4538.000,4494.200,0.000,2026-08-03,15:00:00,300,1,4514.968,沪深300指数期货连续";
    assert_eq!(extract_quote_name(if0_body).as_deref(), Some("沪深300指数期货连续"));
}

#[test]
fn quote_name_edge_cases() {
    assert_eq!(extract_quote_name(""), None);
    assert_eq!(extract_quote_name(" , ,"), None);
    assert_eq!(extract_quote_name("1.5,2.5,abc"), None);
    assert_eq!(extract_quote_name(" name ,1"), Some("name".to_string()));
}

#[test]
fn percent_encoding_and_urls() {
    assert_eq!(percent_encode_bytes(b"AU0"), vec!['A', 'U', '0']);
    assert_eq!(percent_encode_bytes(b"a b/"), vec!['a', '%', '2', '0', 'b', '%', '2', 'F']);
    assert_eq!(encode_gbk_query("AU0"), "AU0");
    assert_eq!(encode_gbk_query("黄金"), "%BB%C6%BD%F0");
    let urls = hq_data_urls("AU0", "futures");
    assert_eq!(urls, vec!["http://vip.stock.finance.sina.com.cn/quotes_service/api/json_v2.php/Market_Center.getHQFuturesData?page=1&num=1&sort=position&asc=0&node=AU0&base=futures"]);
    let urls = hq_all_data_urls("黄金", "futures");
    assert_eq!(urls.len(), 2);
    assert!(urls[0].contains("num=1000&sort=position&asc=0&node=%BB%C6%BD%F0&base=futures"));
    assert!(urls[1].contains("node=%E9%BB%84%E9%87%91&base=futures"));
}
