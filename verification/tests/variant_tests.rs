use yf_quote::discover::{discover_currency_data, discover_index_data};
use yf_quote::parse::parse_structured;
use yf_quote::pipeline::{extract_quote_from_page, locate_block, scrape_dynamically};
use yf_quote::schema::{get_data_sources, SourceTag};
use yf_quote::selector::{stock_data_from, verify_selector};

#[test]
fn index_discovery_reads_embedded_state() {
    let page = "<html><body><script>window.__PRELOADED_STATE__ = {\"pageInfo\":{\"title\":\"日経平均株価 - market page\"},\"priceBoard\":{\"price\":\"39,500.12\",\"change\":\"+120.5\",\"changePercent\":\"(+0.31%)\",\"marketTime\":\"15:45\"}};</script></body></html>";
    let block = locate_block(page).unwrap();
    let tree = parse_structured(&block);
    assert!(tree.is_some());
    let d = discover_index_data("^N225", page, &tree);
    assert_eq!(d.name_candidates[0].text, "日経平均株価");
    assert_eq!(d.price_candidates[0].text, "39,500.12");
    assert_eq!(d.change_abs_candidates[0].text, "+120.5");
    assert_eq!(d.change_pct_candidates[0].text, "+0.31%");
    assert_eq!(d.update_time_candidates[0].text, "15:45");
}

#[test]
fn index_discovery_falls_back_to_markup() {
    let page = "<html><head><title>TOPIX - market page</title></head><body><div class=\"_CommonPriceBoard__priceBlock\"><span class=\"_StyledNumber__value\">2,750.50</span></div><span class=\"_PriceChangeLabel__primary\"><span class=\"_StyledNumber__value\">-12.3</span></span></body></html>";
    let none = None;
    let d = discover_index_data("^TPX", page, &none);
    assert_eq!(d.name_candidates[0].text, "TOPIX");
    assert_eq!(d.price_candidates[0].text, "2,750.50");
    assert_eq!(d.change_abs_candidates[0].text, "-12.3");
}

#[test]
fn currency_discovery_merges_both_pages() {
    let page_x = "<html><body><h1>米ドル/円 - market</h1><div class=\"rate-board\"><span>157.25</span></div><span class=\"time-stamp\">12:00</span></body></html>";
    let page_fx = "<html><body><h1>米ドル/円 - board</h1><span class=\"change-abs\">+0.35</span><span class=\"change-pct\">+0.22%</span></body></html>";
    let d = discover_currency_data("USDJPY=X", page_x, page_fx);
    assert_eq!(d.name_candidates[0].text, "米ドル/円");
    assert_eq!(d.price_candidates[0].text, "157.25");
    assert_eq!(d.change_abs_candidates[0].text, "+0.35");
    assert_eq!(d.change_pct_candidates[0].text, "+0.22%");
    assert_eq!(d.update_time_candidates[0].text, "12:00");

    let flat = stock_data_from(&d, "USDJPY=X");
    assert_eq!(flat.code, "USDJPY=X");
    assert_eq!(flat.price, "157.25");
    assert_eq!(flat.change_abs, "+0.35");
}

#[test]
fn currency_extraction_uses_both_pages() {
    let page_x = "<html><body><h1>米ドル/円 - market</h1><div class=\"rate-board\"><span>157.25</span></div></body></html>";
    let page_fx = "<html><body><span class=\"change-abs\">+0.35</span></body></html>";
    let sources = get_data_sources();
    let r = extract_quote_from_page("USDJPY=X", page_x, page_fx, &sources).unwrap();
    assert_eq!(r.source, SourceTag::Dom);
    assert_eq!(r.name, "米ドル/円");
    assert_eq!(r.price, "157.25");
    assert_eq!(r.price_change, "+0.35");
    assert_eq!(r.price_change_rate, "N/A");
}

#[test]
fn currency_schema_match_is_not_suffix_stripped() {
    let page = "<html><body><script>window.__PRELOADED_STATE__ = {\"mainCurrencyPriceBoard\":{\"currencyPrices\":{\"currencyPairCode\":\"USDJPY=X\",\"currencyPairName\":\"米ドル/円\",\"bid\":\"157.25\",\"priceUpdateTime\":\"12:00\"}}};</script></body></html>";
    let sources = get_data_sources();
    let r = extract_quote_from_page("USDJPY=X", page, page, &sources).unwrap();
    assert_eq!(r.source, SourceTag::Schema);
    assert_eq!(r.code, "USDJPY=X");
    assert_eq!(r.price, "157.25");
    assert_eq!(r.price_change, "N/A");
}

#[test]
fn dynamic_scrape_records_reusable_selectors() {
    let page = "<html><head><title>Nikkei 225【N225】</title></head><body><h2>Nikkei 225</h2><span class=\"value-large\">39,500.12</span></body></html>";
    let r = scrape_dynamically("998407", page, page);
    assert_eq!(r.data.name, "Nikkei 225");
    assert_eq!(r.data.price, "39,500.12");
    assert_eq!(r.data.change_abs, "");
    assert!(!r.price_selector.is_empty());
    let desc = verify_selector(page, &r.price_selector);
    assert!(desc.is_valid);
    assert!(desc.match_count >= 1);
    assert!(desc.samples.iter().any(|s| s.text.contains("39,500.12")));
}

#[test]
fn schema_numbers_keep_exact_rendering() {
    let page = "<html><body><script>window.__PRELOADED_STATE__ = {\"mainStocksPriceBoard\":{\"priceBoard\":{\"code\":\"7203\",\"name\":\"Toyota\",\"price\":2500.5,\"priceChange\":10}}};</script></body></html>";
    let sources = get_data_sources();
    let r = extract_quote_from_page("7203.T", page, page, &sources).unwrap();
    assert_eq!(r.price, "2500.5");
    assert_eq!(r.price_change, "10");
}
