use yf_quote::discover::discover_data;
use yf_quote::pipeline::{
    classify_code, currency_page_codes, extract_quote_from_page, locate_block, parse_code_list,
    quote_url_for, InstrumentKind,
};
use yf_quote::schema::{get_data_sources, RecordStatus, SourceTag};
use yf_quote::selector::{generate_selector_candidates, verify_selector};

fn schema_page() -> String {
    "<html><head><title>トヨタ自動車(株)【7203】</title></head><body><script>window.__PRELOADED_STATE__ = {\"mainStocksPriceBoard\":{\"priceBoard\":{\"code\":\"7203\",\"name\":\"Toyota\",\"price\":\"2,500\",\"priceChange\":\"+10\",\"priceChangeRate\":\"0.4%\",\"priceDateTime\":\"15:00\"}}};</script></body></html>"
    .to_string()
}

#[test]
fn scenario_schema_block_resolves_with_schema_source() {
    let page = schema_page();
    let sources = get_data_sources();
    let r = extract_quote_from_page("7203.T", &page, &page, &sources).unwrap();
    assert_eq!(r.code, "7203");
    assert_eq!(r.name, "Toyota");
    assert_eq!(r.price, "2,500");
    assert_eq!(r.price_change, "+10");
    assert_eq!(r.price_change_rate, "0.4%");
    assert_eq!(r.update_time, "15:00");
    assert_eq!(r.source, SourceTag::Schema);
    assert_eq!(r.status, RecordStatus::Complete);
}

#[test]
fn scenario_schema_beats_generic_when_both_match() {
    // The same page carries both the known schema location and another
    // object that the generic key-set search would find.
    let page = "<html><body><script>window.__PRELOADED_STATE__ = {\"aaaOther\":{\"inner\":{\"code\":\"7203\",\"name\":\"Wrong\",\"price\":\"1\"}},\"mainStocksPriceBoard\":{\"priceBoard\":{\"code\":\"7203\",\"name\":\"Toyota\",\"price\":\"2,500\"}}};</script></body></html>";
    let sources = get_data_sources();
    let r = extract_quote_from_page("7203.T", page, page, &sources).unwrap();
    assert_eq!(r.source, SourceTag::Schema);
    assert_eq!(r.name, "Toyota");
}

#[test]
fn scenario_generic_search_finds_offbeat_location() {
    let page = "<html><body><script>window.__PRELOADED_STATE__ = {\"somewhere\":{\"deep\":{\"code\":\"9984\",\"name\":\"SoftBank\",\"price\":\"7,000\",\"priceChange\":\"-20\"}}};</script></body></html>";
    let sources = get_data_sources();
    let r = extract_quote_from_page("9984.T", page, page, &sources).unwrap();
    assert_eq!(r.source, SourceTag::Generic);
    assert_eq!(r.code, "9984");
    assert_eq!(r.name, "SoftBank");
    assert_eq!(r.price, "7,000");
    assert_eq!(r.price_change, "-20");
}

fn dom_page() -> String {
    "<html><head><title>Nikkei 225【N225】</title></head><body><h2>Nikkei 225</h2><span class=\"value-large\">39,500.12</span></body></html>"
    .to_string()
}

#[test]
fn scenario_dom_fallback_ranks_and_resolves() {
    let page = dom_page();
    let d = discover_data("998407", &page);
    assert!(!d.name_candidates.is_empty());
    assert_eq!(d.name_candidates[0].text, "Nikkei 225");
    assert!(!d.price_candidates.is_empty());
    assert_eq!(d.price_candidates[0].text, "39,500.12");
    let sources = get_data_sources();
    let r = extract_quote_from_page("998407", &page, &page, &sources).unwrap();
    assert_eq!(r.source, SourceTag::Dom);
    assert_eq!(r.name, "Nikkei 225");
    assert_eq!(r.price, "39,500.12");
}

#[test]
fn scenario_malformed_block_advances_to_heuristics() {
    // The structured block is truncated: the pipeline must advance past
    // the structured path without failing the request.
    let page = "<html><head><title>Nikkei 225【N225】</title></head><body><script>window.__PRELOADED_STATE__ = {\"mainStocksPriceBoard\":{\"priceBo</script><h2>Nikkei 225</h2><span class=\"value\">39,500.12</span></body></html>";
    let sources = get_data_sources();
    let r = extract_quote_from_page("998407", page, page, &sources).unwrap();
    assert_eq!(r.source, SourceTag::Dom);
    assert_eq!(r.name, "Nikkei 225");
}

#[test]
fn scenario_nothing_matches_names_missing_fields() {
    let page = "<html><body><p>nothing here</p></body></html>";
    let sources = get_data_sources();
    let e = extract_quote_from_page("0000", page, page, &sources).unwrap_err();
    assert!(e.missing.iter().any(|f| f == "name"));
    assert!(e.missing.iter().any(|f| f == "price"));
}

#[test]
fn selector_round_trip_relocates_candidate_text() {
    let page = dom_page();
    let d = discover_data("998407", &page);
    let target = d.price_candidates[0].text.clone();
    let queries = generate_selector_candidates(&page, &target);
    assert!(!queries.is_empty());
    let desc = verify_selector(&page, &queries[0]);
    assert!(desc.is_valid);
    assert!(desc.match_count >= 1);
    assert!(desc.samples.iter().any(|s| s.text.contains(&target)));
}

#[test]
fn verify_selector_reports_malformed_query() {
    let desc = verify_selector("<html></html>", "[[[not-a-selector");
    assert!(!desc.is_valid);
    assert_eq!(desc.match_count, 0);
    assert!(desc.samples.is_empty());
}

#[test]
fn verify_selector_counts_matches() {
    let page = "<html><body><span>a</span><span>b</span></body></html>";
    let desc = verify_selector(page, "span");
    assert!(desc.is_valid);
    assert_eq!(desc.match_count, 2);
    assert_eq!(desc.samples.len(), 2);
    assert_eq!(desc.samples[0].text, "a");
}

#[test]
fn locate_block_strips_semicolon_and_trims() {
    let page = "xx window.__PRELOADED_STATE__ =  {\"a\":1}\n;</script> tail";
    assert_eq!(locate_block(page).unwrap(), "{\"a\":1}\n");
    let page2 = "window.__PRELOADED_STATE__ = {\"a\":1};</script>";
    assert_eq!(locate_block(page2).unwrap(), "{\"a\":1}");
}

#[test]
fn locate_block_absent_marker() {
    assert!(locate_block("<html></html>").is_none());
}

#[test]
fn classify_by_code_shape() {
    assert_eq!(classify_code("^N225"), InstrumentKind::Index);
    assert_eq!(classify_code("USDJPY=X"), InstrumentKind::Currency);
    assert_eq!(classify_code("USDJPY=FX"), InstrumentKind::Currency);
    assert_eq!(classify_code("7203.T"), InstrumentKind::Equity);
}

#[test]
fn code_list_splits_and_trims() {
    let v = parse_code_list("7203, ^N225 ,,USDJPY=X");
    assert_eq!(v, vec!["7203", "^N225", "USDJPY=X"]);
}

#[test]
fn quote_urls_qualify_plain_codes() {
    assert_eq!(quote_url_for("7203"), "https://finance.yahoo.co.jp/quote/7203.T/");
    assert_eq!(quote_url_for("^N225"), "https://finance.yahoo.co.jp/quote/^N225/");
    assert_eq!(
        quote_url_for("USDJPY=X"),
        "https://finance.yahoo.co.jp/quote/USDJPY=X/"
    );
}

#[test]
fn currency_codes_pair_both_page_variants() {
    assert_eq!(
        currency_page_codes("USDJPY=X"),
        ("USDJPY=X".to_string(), "USDJPY=FX".to_string())
    );
    assert_eq!(
        currency_page_codes("USDJPY=FX"),
        ("USDJPY=X".to_string(), "USDJPY=FX".to_string())
    );
}

#[test]
fn extraction_is_deterministic_on_same_input() {
    let page = dom_page();
    let sources = get_data_sources();
    let a = extract_quote_from_page("998407", &page, &page, &sources).unwrap();
    let b = extract_quote_from_page("998407", &page, &page, &sources).unwrap();
    assert_eq!(a.name, b.name);
    assert_eq!(a.price, b.price);
    assert_eq!(a.price_change, b.price_change);
    assert_eq!(a.price_change_rate, b.price_change_rate);
    assert_eq!(a.update_time, b.update_time);
}
