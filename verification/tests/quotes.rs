use portfolio_tracker::quote::{QuoteMap, RealQuote};
use portfolio_tracker::quote_service::QuoteService;

#[test]
fn format_prefixes_shanghai_codes() {
    assert_eq!(QuoteService::format_stock_code("600519"), "sh600519");
}

#[test]
fn format_prefixes_shenzhen_codes() {
    assert_eq!(QuoteService::format_stock_code("000001"), "sz000001");
    assert_eq!(QuoteService::format_stock_code("300750"), "sz300750");
}

#[test]
fn format_keeps_prefixed_codes() {
    assert_eq!(QuoteService::format_stock_code("sh600519"), "sh600519");
    assert_eq!(QuoteService::format_stock_code("sz000001"), "sz000001");
}

#[test]
fn format_keeps_nonconforming_codes() {
    assert_eq!(QuoteService::format_stock_code("12345"), "12345");
    assert_eq!(QuoteService::format_stock_code("1234567"), "1234567");
    assert_eq!(QuoteService::format_stock_code("briefly"), "briefly");
    assert_eq!(QuoteService::format_stock_code(""), "");
    // A 6-digit code with a leading digit outside 6/0/3 passes through.
    assert_eq!(QuoteService::format_stock_code("999999"), "999999");
}

#[test]
fn format_cleans_nondigit_characters() {
    // Only the digits count toward the 6-digit rule.
    assert_eq!(QuoteService::format_stock_code("60-05-19"), "sh600519");
}

#[test]
fn parse_reads_name_and_price() {
    let text = "v_sh600519=\"51~贵州茅台~600519~1850.00~2.1~xx\"";
    let q = QuoteService::parse_quote_response(text, "600519").unwrap();
    assert_eq!(q.code, "600519");
    assert_eq!(q.name, "贵州茅台");
    assert_eq!(q.real_price, 185000);
}

#[test]
fn parse_accepts_prices_without_fraction() {
    let q = QuoteService::parse_quote_response("x\"0~n~c~12~\"", "c").unwrap();
    assert_eq!(q.real_price, 1200);
    let q = QuoteService::parse_quote_response("x\"0~n~c~12.5~\"", "c").unwrap();
    assert_eq!(q.real_price, 1250);
}

#[test]
fn parse_rejects_missing_quotes() {
    let e = QuoteService::parse_quote_response("no quotes here", "c").unwrap_err();
    assert_eq!(e.message(), "无效的响应格式");
}

#[test]
fn parse_rejects_too_few_fields() {
    let e = QuoteService::parse_quote_response("v=\"a~b~c\"", "600519").unwrap_err();
    assert_eq!(e.message(), "股票 600519 数据字段不足，响应: a~b~c");
}

#[test]
fn parse_rejects_empty_or_suspended_price() {
    let e = QuoteService::parse_quote_response("v=\"a~b~c~~d\"", "600519").unwrap_err();
    assert_eq!(e.message(), "股票 600519 暂停或无价格数据");
    let e = QuoteService::parse_quote_response("v=\"a~b~c~--~d\"", "600519").unwrap_err();
    assert_eq!(e.message(), "股票 600519 暂停或无价格数据");
}

#[test]
fn parse_rejects_malformed_price() {
    let e = QuoteService::parse_quote_response("v=\"a~b~c~abc~d\"", "600519").unwrap_err();
    assert_eq!(e.message(), "解析价格失败 'abc'");
    // More than two fraction digits do not fit the fixed-point price model.
    let e = QuoteService::parse_quote_response("v=\"a~b~c~1.234~d\"", "600519").unwrap_err();
    assert_eq!(e.message(), "解析价格失败 '1.234'");
}

#[test]
fn synthetic_prices_depend_on_code_length() {
    let codes = vec!["AAA".to_string(), "BB".to_string()];
    let m = QuoteService::mock_quotes(&codes);
    let a = m.get("AAA").unwrap();
    let b = m.get("BB").unwrap();
    // 10.00 plus half a unit per character.
    assert_eq!(a.real_price, 1150);
    assert_eq!(b.real_price, 1100);
    assert!(a.real_price != b.real_price);
    assert_eq!(a.name, "模拟股票AAA");
    assert_eq!(b.name, "模拟股票BB");
}

#[test]
fn forced_synthetic_covers_every_code_and_skips_live() {
    let codes = vec!["AAA".to_string(), "BB".to_string()];
    // The live path gets no codes at all.
    let plan = QuoteService::live_fetch_plan(&codes, true);
    assert_eq!(plan.len(), 0);
    // Even with a live quote at hand, forced-synthetic ignores it.
    let mut live = QuoteMap::new();
    live.insert(RealQuote::new("AAA".to_string(), "实时".to_string(), 9999));
    let m = QuoteService::assemble_quotes(&codes, true, live);
    assert_eq!(m.get("AAA").unwrap().real_price, 1150);
    assert_eq!(m.get("BB").unwrap().real_price, 1100);
}

#[test]
fn live_path_plan_fetches_all_codes() {
    let codes = vec!["AAA".to_string(), "BB".to_string()];
    let plan = QuoteService::live_fetch_plan(&codes, false);
    assert_eq!(plan, codes);
}

#[test]
fn fallback_never_overwrites_live_quotes() {
    let codes = vec!["600519".to_string(), "000001".to_string()];
    let mut live = QuoteMap::new();
    live.insert(RealQuote::new("600519".to_string(), "贵州茅台".to_string(), 185000));
    let m = QuoteService::assemble_quotes(&codes, false, live);
    // The live quote survives, even though the synthetic price would differ.
    let q = m.get("600519").unwrap();
    assert_eq!(q.real_price, 185000);
    assert_eq!(q.name, "贵州茅台");
    // The unresolved code is backfilled synthetically.
    let q = m.get("000001").unwrap();
    assert_eq!(q.real_price, 1000 + 6 * 50);
    assert_eq!(q.name, "模拟股票000001");
}

#[test]
fn quote_map_first_insert_wins() {
    let mut m = QuoteMap::new();
    m.insert(RealQuote::new("AAA".to_string(), "first".to_string(), 100));
    m.insert(RealQuote::new("AAA".to_string(), "second".to_string(), 200));
    assert_eq!(m.len(), 1);
    let q = m.get("AAA").unwrap();
    assert_eq!(q.name, "first");
    assert_eq!(q.real_price, 100);
    assert!(m.contains("AAA"));
    assert!(!m.contains("BBB"));
    assert!(m.get("BBB").is_none());
}
