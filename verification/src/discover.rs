//! Per-field candidate discovery: each pipeline variant runs its pattern
//! tables and page-specific seeds over the page text, then ranks and
//! deduplicates the candidates of every field.
use vstd::prelude::*;

use crate::candidate::{
    cand_views, dedup_ranked, deduplicate_and_sort_candidates, first_best,
    lemma_first_best_transfer, lemma_ranked_views_unique, rep_of, view_in, CandView,
    RankedCandidate,
};
use crate::dom::{elem_views, matches_of, select_in, selector_valid, ElemView};
use crate::scan::{
    pattern_views, scan_patterns, scan_spec, FieldKind, Pattern, PatternView,
};
use crate::text::{has_substr, prefix_before, prefix_before_sub, str_eq, trim_spec, trim_str,
    contains_substr, split_before_char, split_before_sub, strip_parens, strip_parens_spec};
use crate::tree::{
    find_node, get_key, get_string_value, key_views, obj_lookup, obj_string, tree_get,
    tree_get_path, JsonNode, JsonVal,
};

verus! {

/// How a raw element text is cleaned before it becomes a candidate.
#[derive(Clone, Copy, Debug, PartialEq, Eq, Structural)]
pub enum CleanMode {
    /// Trim surrounding whitespace.
    Trim,
    /// Keep what stands before a spaced dash, trimmed.
    DashPrefix,
}

/// The cleaned form of a raw element text.
pub open spec fn clean_text(m: CleanMode, t: Seq<char>) -> Seq<char> {
    match m {
        CleanMode::Trim => trim_spec(t),
        CleanMode::DashPrefix => trim_spec(prefix_before_sub(t, " - "@)),
    }
}

/// Clean a raw element text.
pub fn clean_text_exec(m: CleanMode, t: &str) -> (r: String)
    ensures
        r@ == clean_text(m, t@),
{
    match m {
        CleanMode::Trim => trim_str(t),
        CleanMode::DashPrefix => {
            proof {
                reveal_strlit(" - ");
            }
            let cut = split_before_sub(t, " - ");
            trim_str(cut.as_str())
        },
    }
}

/// The ranked candidates `out` are exactly what deduplicating and ranking a
/// pool with the element views `pool` yields.
pub open spec fn pool_ranked(pool: Seq<CandView>, out: Seq<RankedCandidate>) -> bool {
    exists|p: Seq<RankedCandidate>| cand_views(p) == pool && dedup_ranked(p, out)
}

/// The single candidate that the first match of `sel`, cleaned, yields.
pub open spec fn single_pool(
    html: Seq<char>,
    sel: Seq<char>,
    m: CleanMode,
    score: u32,
    reason: Seq<char>,
) -> Seq<CandView> {
    if !selector_valid(sel) {
        Seq::empty()
    } else {
        let ms = matches_of(html, sel);
        if ms.len() == 0 {
            Seq::empty()
        } else {
            let c = clean_text(m, ms[0].text);
            if c.len() > 0 {
                seq![CandView { text: c, score, reason }]
            } else {
                Seq::empty()
            }
        }
    }
}

/// Take the first match of `sel`, cleaned, as a single candidate.
fn single_pool_exec(html: &str, sel: &str, m: CleanMode, score: u32, reason: &str) -> (r: Vec<
    RankedCandidate,
>)
    ensures
        cand_views(r@) == single_pool(html@, sel@, m, score, reason@),
{
    let mut out: Vec<RankedCandidate> = Vec::new();
    match select_in(html, sel) {
        Some(ms) => {
            if ms.len() > 0 {
                let c = clean_text_exec(m, ms[0].text.as_str());
                if c.unicode_len() > 0 {
                    proof {
                        assert(ms@[0]@ == matches_of(html@, sel@)[0]);
                    }
                    out.push(
                        RankedCandidate {
                            text: c,
                            score,
                            reason: String::from_str(reason),
                        },
                    );
                }
            } else {
                proof {
                    assert(elem_views(ms@).len() == 0);
                }
            }
        },
        None => {},
    }
    proof {
        assert(cand_views(out@) =~= single_pool(html@, sel@, m, score, reason@));
    }
    out
}

/// The base name a page title yields: the text before the first bracket,
/// parenthesis or full-width colon, trimmed.
pub open spec fn title_base(t: Seq<char>) -> Seq<char> {
    trim_spec(
        prefix_before(prefix_before(prefix_before(t, '\u{3010}'), '('), '\u{ff1a}'),
    )
}

/// Derive the base name from the page title text.
fn title_base_exec(t: &str) -> (r: String)
    ensures
        r@ == title_base(t@),
{
    let a = split_before_char(t, '\u{3010}');
    let b = split_before_char(a.as_str(), '(');
    let c = split_before_char(b.as_str(), '\u{ff1a}');
    trim_str(c.as_str())
}

/// The heading candidates anchored to the title's base name: an exact match
/// scores highest, a heading that contains the base name a little lower.
pub open spec fn heading_cands(ms: Seq<ElemView>, base: Seq<char>) -> Seq<CandView>
    decreases ms.len(),
{
    if ms.len() == 0 {
        Seq::empty()
    } else {
        let t = trim_spec(ms[0].text);
        let rest = heading_cands(ms.drop_first(), base);
        if t.len() == 0 {
            rest
        } else if t == base {
            seq![
                CandView { text: t, score: 110, reason: "heading matches the page title"@ },
            ] + rest
        } else if has_substr(t, base) {
            seq![
                CandView { text: t, score: 100, reason: "heading contains the page title"@ },
            ] + rest
        } else {
            rest
        }
    }
}

proof fn lemma_heading_cands_skip(ms: Seq<ElemView>, base: Seq<char>, i: int)
    requires
        0 <= i < ms.len(),
    ensures
        heading_cands(ms.skip(i), base) == (if trim_spec(ms[i].text).len() == 0 {
            Seq::<CandView>::empty()
        } else if trim_spec(ms[i].text) == base {
            seq![
                CandView {
                    text: trim_spec(ms[i].text),
                    score: 110,
                    reason: "heading matches the page title"@,
                },
            ]
        } else if has_substr(trim_spec(ms[i].text), base) {
            seq![
                CandView {
                    text: trim_spec(ms[i].text),
                    score: 100,
                    reason: "heading contains the page title"@,
                },
            ]
        } else {
            Seq::<CandView>::empty()
        }) + heading_cands(ms.skip(i + 1), base),
{
    assert(ms.skip(i)[0] == ms[i]);
    assert(ms.skip(i).drop_first() =~= ms.skip(i + 1));
    let t = trim_spec(ms[i].text);
    if t.len() == 0 || (t != base && !has_substr(t, base)) {
        assert(heading_cands(ms.skip(i), base) =~= Seq::<CandView>::empty() + heading_cands(
            ms.skip(i + 1),
            base,
        ));
    }
}

/// The name pool of the default pipeline: the raw title text as a weak
/// seed, and every heading that matches or contains the title's base name.
pub open spec fn equity_name_pool(html: Seq<char>) -> Seq<CandView> {
    if !selector_valid("title"@) {
        Seq::empty()
    } else {
        let ts = matches_of(html, "title"@);
        if ts.len() == 0 {
            Seq::empty()
        } else {
            let base = title_base(ts[0].text);
            if base.len() == 0 {
                Seq::empty()
            } else {
                seq![CandView { text: ts[0].text, score: 50, reason: "page title"@ }] + (
                if selector_valid("h1, h2"@) {
                    heading_cands(matches_of(html, "h1, h2"@), base)
                } else {
                    Seq::<CandView>::empty()
                })
            }
        }
    }
}

/// Collect the name pool of the default pipeline.
fn equity_name_pool_exec(html: &str) -> (r: Vec<RankedCandidate>)
    ensures
        cand_views(r@) == equity_name_pool(html@),
{
    let mut out: Vec<RankedCandidate> = Vec::new();
    let titles = match select_in(html, "title") {
        Some(ts) => ts,
        None => {
            proof {
                assert(cand_views(out@) =~= equity_name_pool(html@));
            }
            return out;
        },
    };
    if titles.len() == 0 {
        proof {
            assert(elem_views(titles@).len() == 0);
            assert(cand_views(out@) =~= equity_name_pool(html@));
        }
        return out;
    }
    proof {
        assert(titles@[0]@ == matches_of(html@, "title"@)[0]);
    }
    let title_text = titles[0].text.clone();
    let base = title_base_exec(title_text.as_str());
    if base.unicode_len() == 0 {
        proof {
            assert(cand_views(out@) =~= equity_name_pool(html@));
        }
        return out;
    }
    out.push(
        RankedCandidate {
            text: title_text,
            score: 50,
            reason: String::from_str("page title"),
        },
    );
    let ghost head = cand_views(out@);
    proof {
        assert(head =~= seq![
            CandView {
                text: matches_of(html@, "title"@)[0].text,
                score: 50,
                reason: "page title"@,
            },
        ]);
    }
    let headings = match select_in(html, "h1, h2") {
        Some(hs) => hs,
        None => {
            proof {
                assert(cand_views(out@) =~= equity_name_pool(html@));
            }
            return out;
        },
    };
    let ghost hv = elem_views(headings@);
    let ghost basev = base@;
    let ghost full = heading_cands(hv, basev);
    proof {
        assert(hv =~= matches_of(html@, "h1, h2"@));
        assert(hv.skip(0) =~= hv);
        assert(full.subrange(0, 0) =~= Seq::<CandView>::empty());
        assert(full =~= full.subrange(0, 0) + heading_cands(hv.skip(0), basev));
    }
    let mut i: usize = 0;
    while i < headings.len()
        invariant
            hv == elem_views(headings@),
            hv.len() == headings@.len(),
            forall|k: int| 0 <= k < hv.len() ==> hv[k] == headings@[k]@,
            basev == base@,
            full == heading_cands(hv, basev),
            0 <= i <= headings@.len(),
            head.len() == 1,
            out@.len() >= 1,
            cand_views(out@) == head + full.subrange(0, out@.len() - 1),
            out@.len() - 1 <= full.len(),
            full == full.subrange(0, out@.len() - 1) + heading_cands(hv.skip(i as int), basev),
        decreases headings@.len() - i,
    {
        proof {
            lemma_heading_cands_skip(hv, basev, i as int);
        }
        let t = trim_str(headings[i].text.as_str());
        let ghost old_out = out@;
        if t.unicode_len() > 0 {
            if str_eq(t.as_str(), base.as_str()) {
                out.push(
                    RankedCandidate {
                        text: t,
                        score: 110,
                        reason: String::from_str("heading matches the page title"),
                    },
                );
            } else if contains_substr(t.as_str(), base.as_str()) {
                out.push(
                    RankedCandidate {
                        text: t,
                        score: 100,
                        reason: String::from_str("heading contains the page title"),
                    },
                );
            }
        }
        proof {
            let part = heading_cands(hv.skip(i as int), basev);
            let off = old_out.len() - 1;
            assert(full == full.subrange(0, off) + part);
            if out@.len() > old_out.len() {
                assert(full.subrange(0, off + 1) =~= full.subrange(0, off) + seq![full[off]]);
                assert(full[off] == part[0]);
                assert(out@[out@.len() - 1]@ == part[0]);
            }
            assert forall|k: int| 0 <= k < old_out.len() implies out@[k] == old_out[k] by {}
            if out@.len() > old_out.len() {
                assert(part =~= seq![part[0]] + heading_cands(hv.skip(i as int + 1), basev));
            } else {
                assert(part =~= heading_cands(hv.skip(i as int + 1), basev));
            }
            assert(full.subrange(0, out@.len() - 1) =~= full.subrange(0, off)
                + part.subrange(0, out@.len() - old_out.len()));
            assert forall|k: int|
                0 <= k < out@.len() implies cand_views(out@)[k] == (head + full.subrange(
                0,
                out@.len() - 1,
            ))[k] by {
                assert(cand_views(out@)[k] == out@[k]@);
                if k < old_out.len() {
                    assert(cand_views(old_out)[k] == old_out[k]@);
                    assert(cand_views(old_out)[k] == (head + full.subrange(
                        0,
                        old_out.len() - 1,
                    ))[k]);
                    if k >= 1 {
                        assert(full.subrange(0, out@.len() - 1)[k - 1] == full[k - 1]);
                        assert(full.subrange(0, old_out.len() - 1)[k - 1] == full[k - 1]);
                    }
                } else {
                    assert(out@[k]@ == part[0]);
                    assert(full.subrange(0, out@.len() - 1)[k - 1] == full[k - 1]);
                    assert(full[k - 1] == part[0]);
                }
            }
            assert(cand_views(out@) =~= head + full.subrange(0, out@.len() - 1));
            assert(part =~= part.subrange(0, out@.len() - old_out.len()) + heading_cands(
                hv.skip(i as int + 1),
                basev,
            ));
            assert(full =~= full.subrange(0, out@.len() - 1) + heading_cands(
                hv.skip(i as int + 1),
                basev,
            ));
        }
        i = i + 1;
    }
    proof {
        assert(hv.skip(headings@.len() as int) =~= Seq::<ElemView>::empty());
        assert(heading_cands(Seq::<ElemView>::empty(), basev) =~= Seq::<CandView>::empty());
        assert(full =~= full.subrange(0, out@.len() - 1));
        assert(cand_views(out@) =~= equity_name_pool(html@));
    }
    out
}

/// Shorthand for one pattern view.
pub open spec fn pv(q: Seq<char>, b: u32, h: bool) -> PatternView {
    PatternView { query: q, base_score: b, hints: h }
}

/// Rank and deduplicate one field's pool.
fn rank_pool(pool: Vec<RankedCandidate>) -> (r: Vec<RankedCandidate>)
    ensures
        pool_ranked(cand_views(pool@), r@),
{
    let ghost p = pool@;
    let r = deduplicate_and_sort_candidates(pool);
    proof {
        assert(cand_views(p) == cand_views(p) && dedup_ranked(p, r@));
        assert(pool_ranked(cand_views(p), r@));
    }
    r
}

/// Build a pattern value.
fn mk_pattern(q: &str, b: u32, h: bool) -> (r: Pattern)
    ensures
        r@ == pv(q@, b, h),
{
    Pattern { query: String::from_str(q), base_score: b, hints: h }
}

/// The price patterns of the default pipeline, most specific first.
pub open spec fn equity_price_patterns() -> Seq<PatternView> {
    seq![
        pv("span[class*='PriceBoard__price'] span[class*='StyledNumber__value']"@, 150, true),
        pv("[class*='price'], [class*='Price']"@, 50, true),
        pv("span[class*='value'], div[class*='value']"@, 50, true),
        pv("[class*='board'] span, [class*='Board'] span"@, 50, true),
        pv("[data-field='regularMarketPrice']"@, 50, true),
        pv("[class*='quote'], [class*='Quote']"@, 50, true),
        pv("span[class*='last'], div[class*='last']"@, 50, true),
        pv("[class*='current'], [class*='Current']"@, 50, true),
    ]
}

fn equity_price_patterns_exec() -> (r: Vec<Pattern>)
    ensures
        pattern_views(r@) == equity_price_patterns(),
{
    let mut v: Vec<Pattern> = Vec::new();
    v.push(
        mk_pattern("span[class*='PriceBoard__price'] span[class*='StyledNumber__value']", 150, true),
    );
    v.push(mk_pattern("[class*='price'], [class*='Price']", 50, true));
    v.push(mk_pattern("span[class*='value'], div[class*='value']", 50, true));
    v.push(mk_pattern("[class*='board'] span, [class*='Board'] span", 50, true));
    v.push(mk_pattern("[data-field='regularMarketPrice']", 50, true));
    v.push(mk_pattern("[class*='quote'], [class*='Quote']", 50, true));
    v.push(mk_pattern("span[class*='last'], div[class*='last']", 50, true));
    v.push(mk_pattern("[class*='current'], [class*='Current']", 50, true));
    proof {
        assert(pattern_views(v@) =~= equity_price_patterns());
    }
    v
}

/// The wide low-confidence fallback pattern: any text-bearing element.
pub open spec fn wide_fallback_patterns() -> Seq<PatternView> {
    seq![pv("span, div"@, 10, false)]
}

fn wide_fallback_patterns_exec() -> (r: Vec<Pattern>)
    ensures
        pattern_views(r@) == wide_fallback_patterns(),
{
    let mut v: Vec<Pattern> = Vec::new();
    v.push(mk_pattern("span, div", 10, false));
    proof {
        assert(pattern_views(v@) =~= wide_fallback_patterns());
    }
    v
}

/// The dedicated change-label pattern of the default pipeline.
pub open spec fn change_label_patterns() -> Seq<PatternView> {
    seq![pv("[class*='PriceChangeLabel__primary']"@, 100, false)]
}

fn change_label_patterns_exec() -> (r: Vec<Pattern>)
    ensures
        pattern_views(r@) == change_label_patterns(),
{
    let mut v: Vec<Pattern> = Vec::new();
    v.push(mk_pattern("[class*='PriceChangeLabel__primary']", 100, false));
    proof {
        assert(pattern_views(v@) =~= change_label_patterns());
    }
    v
}

/// The broader rate fallback patterns of the default pipeline.
pub open spec fn pct_fallback_patterns() -> Seq<PatternView> {
    seq![
        pv("[class*='change']"@, 50, false),
        pv("[class*='percent']"@, 50, false),
        pv("span"@, 50, false),
        pv("div"@, 50, false),
    ]
}

fn pct_fallback_patterns_exec() -> (r: Vec<Pattern>)
    ensures
        pattern_views(r@) == pct_fallback_patterns(),
{
    let mut v: Vec<Pattern> = Vec::new();
    v.push(mk_pattern("[class*='change']", 50, false));
    v.push(mk_pattern("[class*='percent']", 50, false));
    v.push(mk_pattern("span", 50, false));
    v.push(mk_pattern("div", 50, false));
    proof {
        assert(pattern_views(v@) =~= pct_fallback_patterns());
    }
    v
}

/// The update-time patterns of the default pipeline.
pub open spec fn time_patterns() -> Seq<PatternView> {
    seq![
        pv("ul[class*='PriceBoard__times'] time"@, 100, false),
        pv("time[class*='timestamp']"@, 100, false),
    ]
}

fn time_patterns_exec() -> (r: Vec<Pattern>)
    ensures
        pattern_views(r@) == time_patterns(),
{
    let mut v: Vec<Pattern> = Vec::new();
    v.push(mk_pattern("ul[class*='PriceBoard__times'] time", 100, false));
    v.push(mk_pattern("time[class*='timestamp']", 100, false));
    proof {
        assert(pattern_views(v@) =~= time_patterns());
    }
    v
}

/// The price pool of the default pipeline: the dedicated patterns, or the
/// wide fallback at a markedly lower score when they yield nothing.
pub open spec fn equity_price_pool(html: Seq<char>) -> Seq<CandView> {
    let main = scan_spec(html, equity_price_patterns(), FieldKind::Price);
    if main.len() > 0 {
        main
    } else {
        scan_spec(html, wide_fallback_patterns(), FieldKind::Price)
    }
}

/// The absolute-change pool of the default pipeline.
pub open spec fn equity_change_abs_pool(html: Seq<char>) -> Seq<CandView> {
    scan_spec(html, change_label_patterns(), FieldKind::ChangeAbs)
}

/// The change-rate pool of the default pipeline: the dedicated label, or
/// the broader fallback when it yields nothing.
pub open spec fn equity_change_pct_pool(html: Seq<char>) -> Seq<CandView> {
    let main = scan_spec(html, change_label_patterns(), FieldKind::ChangePctStrict);
    if main.len() > 0 {
        main
    } else {
        scan_spec(html, pct_fallback_patterns(), FieldKind::ChangePctLoose)
    }
}

/// The update-time pool of the default pipeline.
pub open spec fn equity_time_pool(html: Seq<char>) -> Seq<CandView> {
    scan_spec(html, time_patterns(), FieldKind::NonEmpty)
}

/// One extraction attempt's ranked candidates, per logical field.
pub struct DiscoveredFieldSet {
    pub code: String,
    pub name_candidates: Vec<RankedCandidate>,
    pub price_candidates: Vec<RankedCandidate>,
    pub change_abs_candidates: Vec<RankedCandidate>,
    pub change_pct_candidates: Vec<RankedCandidate>,
    pub update_time_candidates: Vec<RankedCandidate>,
}

/// Every field of `d` is the ranked, deduplicated rendering of its pool.
pub open spec fn fields_ranked(
    d: DiscoveredFieldSet,
    np: Seq<CandView>,
    pp: Seq<CandView>,
    ca: Seq<CandView>,
    cp: Seq<CandView>,
    ut: Seq<CandView>,
) -> bool {
    &&& pool_ranked(np, d.name_candidates@)
    &&& pool_ranked(pp, d.price_candidates@)
    &&& pool_ranked(ca, d.change_abs_candidates@)
    &&& pool_ranked(cp, d.change_pct_candidates@)
    &&& pool_ranked(ut, d.update_time_candidates@)
}

/// `d` is the discovery result of the default (equity) pipeline on `html`.
pub open spec fn equity_discovered(html: Seq<char>, code: Seq<char>, d: DiscoveredFieldSet) -> bool {
    &&& d.code@ == code
    &&& fields_ranked(
        d,
        equity_name_pool(html),
        equity_price_pool(html),
        equity_change_abs_pool(html),
        equity_change_pct_pool(html),
        equity_time_pool(html),
    )
}

/// Turn a scan into a pool vector.
fn scan_pool(html: &str, patterns: &Vec<Pattern>, kind: FieldKind) -> (r: Vec<RankedCandidate>)
    ensures
        cand_views(r@) == scan_spec(html@, pattern_views(patterns@), kind),
{
    let r = scan_patterns(html, patterns, kind);
    proof {
        assert(cand_views(r@) =~= scan_spec(html@, pattern_views(patterns@), kind));
    }
    r
}

/// Run the default (equity) pipeline's heuristic scan over the page: every
/// field's pattern table, with its fallback when the dedicated patterns
/// yield nothing, then rank and deduplicate each field's pool.
pub fn discover_data(code: &str, html: &str) -> (r: DiscoveredFieldSet)
    ensures
        equity_discovered(html@, code@, r),
{
    let name_pool = equity_name_pool_exec(html);

    let price_pats = equity_price_patterns_exec();
    let mut price_pool = scan_pool(html, &price_pats, FieldKind::Price);
    if price_pool.len() == 0 {
        let fb = wide_fallback_patterns_exec();
        price_pool = scan_pool(html, &fb, FieldKind::Price);
    }

    let change_pats = change_label_patterns_exec();
    let abs_pool = scan_pool(html, &change_pats, FieldKind::ChangeAbs);

    let mut pct_pool = scan_pool(html, &change_pats, FieldKind::ChangePctStrict);
    if pct_pool.len() == 0 {
        let fb = pct_fallback_patterns_exec();
        pct_pool = scan_pool(html, &fb, FieldKind::ChangePctLoose);
    }

    let time_pats = time_patterns_exec();
    let time_pool = scan_pool(html, &time_pats, FieldKind::NonEmpty);

    DiscoveredFieldSet {
        code: String::from_str(code),
        name_candidates: rank_pool(name_pool),
        price_candidates: rank_pool(price_pool),
        change_abs_candidates: rank_pool(abs_pool),
        change_pct_candidates: rank_pool(pct_pool),
        update_time_candidates: rank_pool(time_pool),
    }
}

/// The name the embedded state yields on an index page: the page title
/// entry, cut before a spaced dash and trimmed.
pub open spec fn index_json_name_pool(t: Option<JsonVal>) -> Seq<CandView> {
    match t {
        Some(v) => match tree_get_path(v, seq!["pageInfo"@, "title"@]) {
            Some(JsonVal::Str(s)) => {
                let c = trim_spec(prefix_before_sub(s, " - "@));
                if c.len() > 0 {
                    seq![CandView { text: c, score: 100, reason: "embedded state title"@ }]
                } else {
                    Seq::empty()
                }
            },
            _ => Seq::empty(),
        },
        None => Seq::empty(),
    }
}

/// The price the embedded state's price board yields on an index page.
pub open spec fn index_json_price_pool(t: Option<JsonVal>) -> Seq<CandView> {
    match t {
        Some(v) => match tree_get(v, "priceBoard"@) {
            Some(JsonVal::Obj(o)) => match obj_string(o, "price"@) {
                Some(s) => seq![
                    CandView { text: s, score: 100, reason: "embedded price board"@ },
                ],
                None => Seq::empty(),
            },
            _ => Seq::empty(),
        },
        None => Seq::empty(),
    }
}

/// The absolute change the embedded price board yields.
pub open spec fn index_json_abs_pool(t: Option<JsonVal>) -> Seq<CandView> {
    match t {
        Some(v) => match tree_get(v, "priceBoard"@) {
            Some(JsonVal::Obj(o)) => match obj_string(o, "change"@) {
                Some(s) => if s.len() > 0 {
                    seq![CandView { text: s, score: 100, reason: "embedded price board"@ }]
                } else {
                    Seq::empty()
                },
                None => Seq::empty(),
            },
            _ => Seq::empty(),
        },
        None => Seq::empty(),
    }
}

/// The change rate the embedded price board yields, with the surrounding
/// parentheses stripped.
pub open spec fn index_json_pct_pool(t: Option<JsonVal>) -> Seq<CandView> {
    match t {
        Some(v) => match tree_get(v, "priceBoard"@) {
            Some(JsonVal::Obj(o)) => match obj_string(o, "changePercent"@) {
                Some(s) => if s.len() > 0 {
                    seq![
                        CandView {
                            text: strip_parens_spec(s),
                            score: 100,
                            reason: "embedded price board"@,
                        },
                    ]
                } else {
                    Seq::empty()
                },
                None => Seq::empty(),
            },
            _ => Seq::empty(),
        },
        None => Seq::empty(),
    }
}

/// The update time the embedded price board yields: the market time entry
/// when present, else the trade time entry.
pub open spec fn index_json_time_pool(t: Option<JsonVal>) -> Seq<CandView> {
    match t {
        Some(v) => match tree_get(v, "priceBoard"@) {
            Some(JsonVal::Obj(o)) => {
                let picked = match obj_lookup(o, "marketTime"@) {
                    Some(x) => Some(x),
                    None => obj_lookup(o, "tradeTime"@),
                };
                match picked {
                    Some(JsonVal::Str(s)) => if s.len() > 0 {
                        seq![
                            CandView {
                                text: s,
                                score: 100,
                                reason: "embedded price board"@,
                            },
                        ]
                    } else {
                        Seq::empty()
                    },
                    _ => Seq::empty(),
                }
            },
            _ => Seq::empty(),
        },
        None => Seq::empty(),
    }
}

/// The index pipeline's dedicated price pattern.
pub open spec fn index_price_patterns() -> Seq<PatternView> {
    seq![
        pv(
            "div[class*='_CommonPriceBoard__priceBlock'] span[class*='_StyledNumber__value']"@,
            90,
            false,
        ),
    ]
}

/// The index pipeline's broader price fallback pattern.
pub open spec fn index_price_broad_patterns() -> Seq<PatternView> {
    seq![
        pv(
            "div[class*='_BasePriceBoard__priceInformation'] span, div[class*='_BasePriceBoard__priceInformation'] div"@,
            70,
            false,
        ),
    ]
}

/// The index pipeline's absolute-change fallback pattern.
pub open spec fn index_abs_patterns() -> Seq<PatternView> {
    seq![
        pv("span[class*='_PriceChangeLabel__primary'] span[class*='_StyledNumber__value']"@, 90, false),
    ]
}

/// The index pipeline's change-rate fallback pattern.
pub open spec fn index_pct_patterns() -> Seq<PatternView> {
    seq![
        pv("span[class*='_PriceChangeLabel__secondary'] span[class*='_StyledNumber__value']"@, 90, false),
    ]
}

/// The index pipeline's update-time fallback pattern.
pub open spec fn index_time_patterns() -> Seq<PatternView> {
    seq![pv("span[class*='_Time'], time[class*='timestamp']"@, 90, false)]
}

/// The index name pool: the embedded state's title, else the page title,
/// else the first heading.
pub open spec fn index_name_pool(html: Seq<char>, t: Option<JsonVal>) -> Seq<CandView> {
    let j = index_json_name_pool(t);
    if j.len() > 0 {
        j
    } else {
        let f1 = single_pool(html, "title"@, CleanMode::DashPrefix, 80, "page title"@);
        if f1.len() > 0 {
            f1
        } else {
            single_pool(html, "h1"@, CleanMode::Trim, 70, "first heading"@)
        }
    }
}

/// The index price pool: the embedded state, else the dedicated pattern,
/// else the broader one.
pub open spec fn index_price_pool(html: Seq<char>, t: Option<JsonVal>) -> Seq<CandView> {
    let j = index_json_price_pool(t);
    if j.len() > 0 {
        j
    } else {
        let d1 = scan_spec(html, index_price_patterns(), FieldKind::PriceBare);
        if d1.len() > 0 {
            d1
        } else {
            scan_spec(html, index_price_broad_patterns(), FieldKind::PriceBare)
        }
    }
}

/// The index absolute-change pool.
pub open spec fn index_abs_pool(html: Seq<char>, t: Option<JsonVal>) -> Seq<CandView> {
    let j = index_json_abs_pool(t);
    if j.len() > 0 {
        j
    } else {
        scan_spec(html, index_abs_patterns(), FieldKind::SignLead)
    }
}

/// The index change-rate pool.
pub open spec fn index_pct_pool(html: Seq<char>, t: Option<JsonVal>) -> Seq<CandView> {
    let j = index_json_pct_pool(t);
    if j.len() > 0 {
        j
    } else {
        scan_spec(html, index_pct_patterns(), FieldKind::NonEmpty)
    }
}

/// The index update-time pool.
pub open spec fn index_time_pool(html: Seq<char>, t: Option<JsonVal>) -> Seq<CandView> {
    let j = index_json_time_pool(t);
    if j.len() > 0 {
        j
    } else {
        scan_spec(html, index_time_patterns(), FieldKind::NonEmpty)
    }
}

/// The view of an optional parsed tree.
pub open spec fn tree_opt_view(t: Option<JsonNode>) -> Option<JsonVal> {
    match t {
        Some(n) => Some(n@),
        None => None,
    }
}

/// `d` is the discovery result of the index pipeline on `html` with the
/// parsed embedded state `t`.
pub open spec fn index_discovered(
    html: Seq<char>,
    t: Option<JsonVal>,
    code: Seq<char>,
    d: DiscoveredFieldSet,
) -> bool {
    &&& d.code@ == code
    &&& fields_ranked(
        d,
        index_name_pool(html, t),
        index_price_pool(html, t),
        index_abs_pool(html, t),
        index_pct_pool(html, t),
        index_time_pool(html, t),
    )
}

/// Read the title entry of the embedded state on an index page.
fn index_json_name_pool_exec(tree: &Option<JsonNode>) -> (r: Vec<RankedCandidate>)
    ensures
        cand_views(r@) == index_json_name_pool(tree_opt_view(*tree)),
{
    let mut out: Vec<RankedCandidate> = Vec::new();
    match tree {
        Some(v) => {
            let mut path: Vec<String> = Vec::new();
            path.push(String::from_str("pageInfo"));
            path.push(String::from_str("title"));
            proof {
                assert(key_views(path@) =~= seq!["pageInfo"@, "title"@]);
            }
            match find_node(v, &path) {
                Some(target) => match target {
                    JsonNode::Str(s) => {
                        let c = clean_text_exec(CleanMode::DashPrefix, s.as_str());
                        if c.unicode_len() > 0 {
                            out.push(
                                RankedCandidate {
                                    text: c,
                                    score: 100,
                                    reason: String::from_str("embedded state title"),
                                },
                            );
                        }
                    },
                    _ => {},
                },
                None => {},
            }
        },
        None => {},
    }
    proof {
        assert(cand_views(out@) =~= index_json_name_pool(tree_opt_view(*tree)));
    }
    out
}

/// Read one string entry of the embedded price board.
fn price_board_entry<'a>(tree: &'a Option<JsonNode>, key: &str) -> (r: Option<&'a String>)
    ensures
        match r {
            Some(s) => (match tree_opt_view(*tree) {
                Some(v) => match tree_get(v, "priceBoard"@) {
                    Some(JsonVal::Obj(o)) => obj_string(o, key@) == Some(s@),
                    _ => false,
                },
                None => false,
            }),
            None => (match tree_opt_view(*tree) {
                Some(v) => match tree_get(v, "priceBoard"@) {
                    Some(JsonVal::Obj(o)) => obj_string(o, key@) is None,
                    _ => true,
                },
                None => true,
            }),
        },
{
    match tree {
        Some(v) => match get_key(v, "priceBoard") {
            Some(pb) => match pb {
                JsonNode::Obj(entries) => get_string_value(entries, key),
                _ => None,
            },
            None => None,
        },
        None => None,
    }
}

/// Collect the index pipeline's embedded-state pools for price, change,
/// rate and time, in that order.
fn index_json_pools_exec(tree: &Option<JsonNode>) -> (r: (
    Vec<RankedCandidate>,
    Vec<RankedCandidate>,
    Vec<RankedCandidate>,
    Vec<RankedCandidate>,
))
    ensures
        cand_views(r.0@) == index_json_price_pool(tree_opt_view(*tree)),
        cand_views(r.1@) == index_json_abs_pool(tree_opt_view(*tree)),
        cand_views(r.2@) == index_json_pct_pool(tree_opt_view(*tree)),
        cand_views(r.3@) == index_json_time_pool(tree_opt_view(*tree)),
{
    let mut price: Vec<RankedCandidate> = Vec::new();
    let mut abs: Vec<RankedCandidate> = Vec::new();
    let mut pct: Vec<RankedCandidate> = Vec::new();
    let mut time: Vec<RankedCandidate> = Vec::new();
    let reason = "embedded price board";
    match price_board_entry(tree, "price") {
        Some(s) => {
            price.push(
                RankedCandidate { text: s.clone(), score: 100, reason: String::from_str(reason) },
            );
        },
        None => {},
    }
    match price_board_entry(tree, "change") {
        Some(s) => {
            if s.as_str().unicode_len() > 0 {
                abs.push(
                    RankedCandidate {
                        text: s.clone(),
                        score: 100,
                        reason: String::from_str(reason),
                    },
                );
            }
        },
        None => {},
    }
    match price_board_entry(tree, "changePercent") {
        Some(s) => {
            if s.as_str().unicode_len() > 0 {
                pct.push(
                    RankedCandidate {
                        text: strip_parens(s.as_str()),
                        score: 100,
                        reason: String::from_str(reason),
                    },
                );
            }
        },
        None => {},
    }
    match index_time_entry(tree) {
        Some(s) => {
            time.push(
                RankedCandidate { text: s, score: 100, reason: String::from_str(reason) },
            );
        },
        None => {},
    }
    proof {
        assert(cand_views(price@) =~= index_json_price_pool(tree_opt_view(*tree)));
        assert(cand_views(abs@) =~= index_json_abs_pool(tree_opt_view(*tree)));
        assert(cand_views(pct@) =~= index_json_pct_pool(tree_opt_view(*tree)));
        assert(cand_views(time@) =~= index_json_time_pool(tree_opt_view(*tree)));
    }
    (price, abs, pct, time)
}

/// Read the market-time entry of the embedded price board, else the
/// trade-time entry, when it is a non-empty string.
fn index_time_entry(tree: &Option<JsonNode>) -> (r: Option<String>)
    ensures
        match r {
            Some(s) => index_json_time_pool(tree_opt_view(*tree)) == seq![
                CandView { text: s@, score: 100, reason: "embedded price board"@ },
            ],
            None => index_json_time_pool(tree_opt_view(*tree)) == Seq::<CandView>::empty(),
        },
{
    let picked: Option<&JsonNode> = match tree {
        Some(v) => match get_key(v, "priceBoard") {
            Some(pb) => match pb {
                JsonNode::Obj(entries) => {
                    match crate::tree::obj_entry(entries, "marketTime") {
                        Some(x) => Some(x),
                        None => crate::tree::obj_entry(entries, "tradeTime"),
                    }
                },
                _ => None,
            },
            None => None,
        },
        None => None,
    };
    let r: Option<String> = match picked {
        Some(x) => match x {
            JsonNode::Str(s) => {
                if s.as_str().unicode_len() > 0 {
                    Some(s.clone())
                } else {
                    None
                }
            },
            _ => None,
        },
        None => None,
    };
    proof {
        if r is None {
            assert(index_json_time_pool(tree_opt_view(*tree)) =~= Seq::<CandView>::empty());
        }
    }
    r
}

/// Run the index pipeline's discovery: the embedded state first, the
/// page's own markup as fallback, each field ranked and deduplicated.
pub fn discover_index_data(code: &str, html: &str, tree: &Option<JsonNode>) -> (r:
    DiscoveredFieldSet)
    ensures
        index_discovered(html@, tree_opt_view(*tree), code@, r),
{
    let mut name_pool = index_json_name_pool_exec(tree);
    if name_pool.len() == 0 {
        name_pool = single_pool_exec(html, "title", CleanMode::DashPrefix, 80, "page title");
        if name_pool.len() == 0 {
            name_pool = single_pool_exec(html, "h1", CleanMode::Trim, 70, "first heading");
        }
    }
    let pools = index_json_pools_exec(tree);
    let mut price_pool = pools.0;
    let mut abs_pool = pools.1;
    let mut pct_pool = pools.2;
    let mut time_pool = pools.3;
    if price_pool.len() == 0 {
        let mut pats: Vec<Pattern> = Vec::new();
        pats.push(
            mk_pattern(
                "div[class*='_CommonPriceBoard__priceBlock'] span[class*='_StyledNumber__value']",
                90,
                false,
            ),
        );
        proof {
            assert(pattern_views(pats@) =~= index_price_patterns());
        }
        price_pool = scan_pool(html, &pats, FieldKind::PriceBare);
        if price_pool.len() == 0 {
            let mut broad: Vec<Pattern> = Vec::new();
            broad.push(
                mk_pattern(
                    "div[class*='_BasePriceBoard__priceInformation'] span, div[class*='_BasePriceBoard__priceInformation'] div",
                    70,
                    false,
                ),
            );
            proof {
                assert(pattern_views(broad@) =~= index_price_broad_patterns());
            }
            price_pool = scan_pool(html, &broad, FieldKind::PriceBare);
        }
    }
    if abs_pool.len() == 0 {
        let mut pats: Vec<Pattern> = Vec::new();
        pats.push(
            mk_pattern(
                "span[class*='_PriceChangeLabel__primary'] span[class*='_StyledNumber__value']",
                90,
                false,
            ),
        );
        proof {
            assert(pattern_views(pats@) =~= index_abs_patterns());
        }
        abs_pool = scan_pool(html, &pats, FieldKind::SignLead);
    }
    if pct_pool.len() == 0 {
        let mut pats: Vec<Pattern> = Vec::new();
        pats.push(
            mk_pattern(
                "span[class*='_PriceChangeLabel__secondary'] span[class*='_StyledNumber__value']",
                90,
                false,
            ),
        );
        proof {
            assert(pattern_views(pats@) =~= index_pct_patterns());
        }
        pct_pool = scan_pool(html, &pats, FieldKind::NonEmpty);
    }
    if time_pool.len() == 0 {
        let mut pats: Vec<Pattern> = Vec::new();
        pats.push(mk_pattern("span[class*='_Time'], time[class*='timestamp']", 90, false));
        proof {
            assert(pattern_views(pats@) =~= index_time_patterns());
        }
        time_pool = scan_pool(html, &pats, FieldKind::NonEmpty);
    }
    DiscoveredFieldSet {
        code: String::from_str(code),
        name_candidates: rank_pool(name_pool),
        price_candidates: rank_pool(price_pool),
        change_abs_candidates: rank_pool(abs_pool),
        change_pct_candidates: rank_pool(pct_pool),
        update_time_candidates: rank_pool(time_pool),
    }
}

/// The currency rate-page patterns.
pub open spec fn currency_price_patterns() -> Seq<PatternView> {
    seq![pv("div[class*='rate'] span, span[class*='price']"@, 90, false)]
}

/// The currency time pattern.
pub open spec fn currency_time_patterns() -> Seq<PatternView> {
    seq![pv("span[class*='time'], time"@, 90, false)]
}

/// The currency change pattern.
pub open spec fn currency_change_patterns() -> Seq<PatternView> {
    seq![
        pv(
            "[class*='change'], [class*='diff'], [class*='gain'], [class*='loss'], [class*='up'], [class*='down']"@,
            90,
            false,
        ),
    ]
}

/// The currency name pool: the first heading, cut before a spaced dash.
pub open spec fn currency_name_pool(html: Seq<char>) -> Seq<CandView> {
    single_pool(html, "h1"@, CleanMode::DashPrefix, 100, "first heading"@)
}

/// `d` is the discovery result of the currency pipeline: identity, price
/// and time from the rate page `hx`, change fields from the board page
/// `hf`.
pub open spec fn currency_discovered(
    hx: Seq<char>,
    hf: Seq<char>,
    code: Seq<char>,
    d: DiscoveredFieldSet,
) -> bool {
    &&& d.code@ == code
    &&& fields_ranked(
        d,
        currency_name_pool(hx),
        scan_spec(hx, currency_price_patterns(), FieldKind::SignedNum),
        scan_spec(hf, currency_change_patterns(), FieldKind::SignLeadNoPct),
        scan_spec(hf, currency_change_patterns(), FieldKind::SignLeadPct),
        scan_spec(hx, currency_time_patterns(), FieldKind::NonEmpty),
    )
}

/// Run the currency pipeline's discovery over the two page variants and
/// merge: identity, price and time from the rate page, change fields from
/// the board page.
pub fn discover_currency_data(code: &str, html_x: &str, html_fx: &str) -> (r: DiscoveredFieldSet)
    ensures
        currency_discovered(html_x@, html_fx@, code@, r),
{
    let name_pool = single_pool_exec(html_x, "h1", CleanMode::DashPrefix, 100, "first heading");
    let mut price_pats: Vec<Pattern> = Vec::new();
    price_pats.push(mk_pattern("div[class*='rate'] span, span[class*='price']", 90, false));
    proof {
        assert(pattern_views(price_pats@) =~= currency_price_patterns());
    }
    let price_pool = scan_pool(html_x, &price_pats, FieldKind::SignedNum);
    let mut time_pats: Vec<Pattern> = Vec::new();
    time_pats.push(mk_pattern("span[class*='time'], time", 90, false));
    proof {
        assert(pattern_views(time_pats@) =~= currency_time_patterns());
    }
    let time_pool = scan_pool(html_x, &time_pats, FieldKind::NonEmpty);
    let mut ch_pats: Vec<Pattern> = Vec::new();
    ch_pats.push(
        mk_pattern(
            "[class*='change'], [class*='diff'], [class*='gain'], [class*='loss'], [class*='up'], [class*='down']",
            90,
            false,
        ),
    );
    proof {
        assert(pattern_views(ch_pats@) =~= currency_change_patterns());
    }
    let abs_pool = scan_pool(html_fx, &ch_pats, FieldKind::SignLeadNoPct);
    let pct_pool = scan_pool(html_fx, &ch_pats, FieldKind::SignLeadPct);
    DiscoveredFieldSet {
        code: String::from_str(code),
        name_candidates: rank_pool(name_pool),
        price_candidates: rank_pool(price_pool),
        change_abs_candidates: rank_pool(abs_pool),
        change_pct_candidates: rank_pool(pct_pool),
        update_time_candidates: rank_pool(time_pool),
    }
}

/// Two candidate lists agree position by position, up to views.
pub open spec fn same_ranked(a: Seq<RankedCandidate>, b: Seq<RankedCandidate>) -> bool {
    a.len() == b.len() && forall|i: int| #![trigger a[i]] 0 <= i < a.len() ==> a[i]@ == b[i]@
}

/// A pool determines its ranked rendering: any two results agree position
/// by position. This is the deterministic core of discovery.
pub proof fn lemma_pool_ranked_unique(
    pool: Seq<CandView>,
    a: Seq<RankedCandidate>,
    b: Seq<RankedCandidate>,
)
    requires
        pool_ranked(pool, a),
        pool_ranked(pool, b),
    ensures
        same_ranked(a, b),
{
    let p1 = choose|p: Seq<RankedCandidate>| cand_views(p) == pool && dedup_ranked(p, a);
    let p2 = choose|p: Seq<RankedCandidate>| cand_views(p) == pool && dedup_ranked(p, b);
    assert(p1.len() == pool.len() && p2.len() == pool.len());
    assert forall|i: int| #![trigger p1[i]] 0 <= i < p1.len() implies p1[i]@ == p2[i]@ by {
        assert(cand_views(p1)[i] == p1[i]@);
        assert(cand_views(p2)[i] == p2[i]@);
    }
    assert forall|i: int| #![trigger a[i]] 0 <= i < a.len() implies view_in(b, a[i]@) by {
        assert(rep_of(p1, a[i]@));
        let k = choose|k: int| first_best(p1, k) && a[i]@ == p1[k]@;
        lemma_first_best_transfer(p1, p2, k);
        assert(view_in(b, p2[k]@));
        assert(p2[k]@ == p1[k]@);
    }
    assert forall|i: int| #![trigger b[i]] 0 <= i < b.len() implies view_in(a, b[i]@) by {
        assert(rep_of(p2, b[i]@));
        let k = choose|k: int| first_best(p2, k) && b[i]@ == p2[k]@;
        lemma_first_best_transfer(p2, p1, k);
        assert(view_in(a, p1[k]@));
        assert(p1[k]@ == p2[k]@);
    }
    lemma_ranked_views_unique(a, b);
}

/// Field sets built from the same pools agree on every field: discovery is
/// deterministic for fixed page text.
pub proof fn lemma_fieldsets_unique(
    d1: DiscoveredFieldSet,
    d2: DiscoveredFieldSet,
    np: Seq<CandView>,
    pp: Seq<CandView>,
    ca: Seq<CandView>,
    cp: Seq<CandView>,
    ut: Seq<CandView>,
)
    requires
        fields_ranked(d1, np, pp, ca, cp, ut),
        fields_ranked(d2, np, pp, ca, cp, ut),
    ensures
        same_ranked(d1.name_candidates@, d2.name_candidates@),
        same_ranked(d1.price_candidates@, d2.price_candidates@),
        same_ranked(d1.change_abs_candidates@, d2.change_abs_candidates@),
        same_ranked(d1.change_pct_candidates@, d2.change_pct_candidates@),
        same_ranked(d1.update_time_candidates@, d2.update_time_candidates@),
{
    lemma_pool_ranked_unique(np, d1.name_candidates@, d2.name_candidates@);
    lemma_pool_ranked_unique(pp, d1.price_candidates@, d2.price_candidates@);
    lemma_pool_ranked_unique(ca, d1.change_abs_candidates@, d2.change_abs_candidates@);
    lemma_pool_ranked_unique(cp, d1.change_pct_candidates@, d2.change_pct_candidates@);
    lemma_pool_ranked_unique(ut, d1.update_time_candidates@, d2.update_time_candidates@);
}

/// Discovery under the default pipeline is deterministic.
pub proof fn lemma_equity_discovery_unique(
    html: Seq<char>,
    code: Seq<char>,
    d1: DiscoveredFieldSet,
    d2: DiscoveredFieldSet,
)
    requires
        equity_discovered(html, code, d1),
        equity_discovered(html, code, d2),
    ensures
        same_ranked(d1.name_candidates@, d2.name_candidates@),
        same_ranked(d1.price_candidates@, d2.price_candidates@),
        same_ranked(d1.change_abs_candidates@, d2.change_abs_candidates@),
        same_ranked(d1.change_pct_candidates@, d2.change_pct_candidates@),
        same_ranked(d1.update_time_candidates@, d2.update_time_candidates@),
{
    lemma_fieldsets_unique(
        d1,
        d2,
        equity_name_pool(html),
        equity_price_pool(html),
        equity_change_abs_pool(html),
        equity_change_pct_pool(html),
        equity_time_pool(html),
    );
}

/// Discovery under the index pipeline is deterministic.
pub proof fn lemma_index_discovery_unique(
    html: Seq<char>,
    t: Option<JsonVal>,
    code: Seq<char>,
    d1: DiscoveredFieldSet,
    d2: DiscoveredFieldSet,
)
    requires
        index_discovered(html, t, code, d1),
        index_discovered(html, t, code, d2),
    ensures
        same_ranked(d1.name_candidates@, d2.name_candidates@),
        same_ranked(d1.price_candidates@, d2.price_candidates@),
        same_ranked(d1.change_abs_candidates@, d2.change_abs_candidates@),
        same_ranked(d1.change_pct_candidates@, d2.change_pct_candidates@),
        same_ranked(d1.update_time_candidates@, d2.update_time_candidates@),
{
    lemma_fieldsets_unique(
        d1,
        d2,
        index_name_pool(html, t),
        index_price_pool(html, t),
        index_abs_pool(html, t),
        index_pct_pool(html, t),
        index_time_pool(html, t),
    );
}

/// Discovery under the currency pipeline is deterministic.
pub proof fn lemma_currency_discovery_unique(
    hx: Seq<char>,
    hf: Seq<char>,
    code: Seq<char>,
    d1: DiscoveredFieldSet,
    d2: DiscoveredFieldSet,
)
    requires
        currency_discovered(hx, hf, code, d1),
        currency_discovered(hx, hf, code, d2),
    ensures
        same_ranked(d1.name_candidates@, d2.name_candidates@),
        same_ranked(d1.price_candidates@, d2.price_candidates@),
        same_ranked(d1.change_abs_candidates@, d2.change_abs_candidates@),
        same_ranked(d1.change_pct_candidates@, d2.change_pct_candidates@),
        same_ranked(d1.update_time_candidates@, d2.update_time_candidates@),
{
    lemma_fieldsets_unique(
        d1,
        d2,
        currency_name_pool(hx),
        scan_spec(hx, currency_price_patterns(), FieldKind::SignedNum),
        scan_spec(hf, currency_change_patterns(), FieldKind::SignLeadNoPct),
        scan_spec(hf, currency_change_patterns(), FieldKind::SignLeadPct),
        scan_spec(hx, currency_time_patterns(), FieldKind::NonEmpty),
    );
}

} // verus!
