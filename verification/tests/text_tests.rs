use yf_quote::candidate::{deduplicate_and_sort_candidates, RankedCandidate};
use yf_quote::text::{normalize_code, price_text, signed_num_text, to_pascal_case, trim_str};

fn cand(text: &str, score: u32) -> RankedCandidate {
    RankedCandidate::new(text.to_string(), score, "test".to_string())
}

#[test]
fn normalize_strips_market_suffix() {
    assert_eq!(normalize_code("7203.T", true), "7203");
    assert_eq!(normalize_code("7203", true), "7203");
}

#[test]
fn normalize_same_key_with_and_without_suffix() {
    assert_eq!(normalize_code("7203.T", true), normalize_code("7203", true));
}

#[test]
fn normalize_leaves_currency_code_unsuffixed() {
    assert_eq!(normalize_code("USDJPY=X", false), "USDJPY=X");
}

#[test]
fn dedup_keeps_best_score_per_text() {
    let v = vec![cand("100", 10), cand("100", 50), cand("100", 30)];
    let r = deduplicate_and_sort_candidates(v);
    assert_eq!(r.len(), 1);
    assert_eq!(r[0].text, "100");
    assert_eq!(r[0].score, 50);
}

#[test]
fn dedup_orders_by_score_then_text() {
    let v = vec![
        cand("b", 10),
        cand("a", 10),
        cand("c", 90),
        cand("a", 10),
        cand("z", 40),
    ];
    let r = deduplicate_and_sort_candidates(v);
    let texts: Vec<&str> = r.iter().map(|c| c.text.as_str()).collect();
    assert_eq!(texts, vec!["c", "z", "a", "b"]);
    // Scores never increase along the ranking.
    for w in r.windows(2) {
        assert!(w[0].score >= w[1].score);
        if w[0].score == w[1].score {
            assert!(w[0].text < w[1].text);
        }
    }
    // No text appears twice.
    for i in 0..r.len() {
        for j in i + 1..r.len() {
            assert_ne!(r[i].text, r[j].text);
        }
    }
}

#[test]
fn dedup_keeps_first_entry_among_equal_scores() {
    let v = vec![cand("x", 20), cand("x", 20)];
    let r = deduplicate_and_sort_candidates(v);
    assert_eq!(r.len(), 1);
    assert_eq!(r[0].score, 20);
}

#[test]
fn price_texts_accept_grouped_decimals() {
    assert!(price_text("2,500"));
    assert!(price_text("39,500.12"));
    assert!(price_text("+3.5"));
    assert!(!price_text("-3.5"));
    assert!(!price_text("abc"));
    assert!(!price_text("1.2.3"));
    assert!(!price_text(""));
}

#[test]
fn signed_numbers_accept_either_sign() {
    assert!(signed_num_text("-3.5"));
    assert!(signed_num_text("+10"));
    assert!(signed_num_text("157.25"));
    assert!(!signed_num_text("abc"));
}

#[test]
fn pascal_case_joins_parts() {
    assert_eq!(to_pascal_case("main_stocks_price_board"), "MainStocksPriceBoard");
    assert_eq!(to_pascal_case("priceBoard"), "PriceBoard");
    assert_eq!(to_pascal_case("index-prices"), "IndexPrices");
    assert_eq!(to_pascal_case(""), "");
}

#[test]
fn trim_removes_surrounding_blanks() {
    assert_eq!(trim_str("  Toyota \n"), "Toyota");
    assert_eq!(trim_str("\u{3000}全角\u{3000}"), "全角");
    assert_eq!(trim_str("   "), "");
}
