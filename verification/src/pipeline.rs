//! The extraction orchestrator: locate the embedded structured-data block,
//! try the schema table, then the generic key-set search, then the DOM
//! heuristic scan, in strict cascade order; the instrument code's shape
//! picks the pipeline variant.
use vstd::prelude::*;

use crate::candidate::RankedCandidate;
use crate::discover::{
    currency_discovered, discover_currency_data, discover_data, discover_index_data,
    equity_discovered, index_discovered, lemma_currency_discovery_unique,
    lemma_equity_discovery_unique, lemma_index_discovery_unique, tree_opt_view,
    DiscoveredFieldSet,
};
use crate::parse::{json_parse, parse_structured};
use crate::selector::{generate_selector_candidates, stock_data_from, synthesize_spec, top_or_empty, StockData};
use crate::schema::{
    generic_lookup, generic_lookup_spec, schema_lookup, schema_lookup_spec, schema_views,
    QuoteRecord, QuoteView, RecordStatus, SchemaSource, SchemaView, SourceTag,
};
use crate::text::{
    ends_with, ends_with_str, find_char, find_substr, first_char_is, first_char_idx,
    first_sub_idx, has_char, has_substr, is_ws, lead_ws, prefix_before, trim_spec, trim_str,
    ws_char,
};
use crate::tree::{key_views, JsonNode, JsonVal};

verus! {

/// The marker that announces the embedded structured-data block.
pub open spec fn state_marker() -> Seq<char> {
    "window.__PRELOADED_STATE__"@
}

/// The text of the embedded structured-data block: what stands between the
/// marker's equals sign and the closing script tag, trimmed, without one
/// trailing semicolon. Nothing when the page carries no such block.
pub open spec fn block_spec(page: Seq<char>) -> Option<Seq<char>> {
    if !has_substr(page, state_marker()) {
        None
    } else {
        let rest = page.skip(first_sub_idx(page, state_marker()) + state_marker().len());
        let r2 = rest.skip(lead_ws(rest));
        if r2.len() == 0 || r2[0] != '=' {
            None
        } else {
            let r3 = r2.drop_first();
            let r4 = r3.skip(lead_ws(r3));
            if !has_substr(r4, "</script>"@) {
                None
            } else {
                let body = r4.subrange(0, first_sub_idx(r4, "</script>"@));
                let t = trim_spec(body);
                if t.len() > 0 && t.last() == ';' {
                    Some(t.drop_last())
                } else {
                    Some(t)
                }
            }
        }
    }
}

/// Find the embedded structured-data block in the page text.
pub fn locate_block(page: &str) -> (r: Option<String>)
    ensures
        match r {
            Some(b) => block_spec(page@) == Some(b@),
            None => block_spec(page@) is None,
        },
{
    proof {
        reveal_strlit("window.__PRELOADED_STATE__");
        reveal_strlit("</script>");
    }
    let m = "window.__PRELOADED_STATE__";
    let n: usize = page.unicode_len();
    let k: usize = match find_substr(page, m) {
        Some(k) => {
            proof {
                crate::text::lemma_first_sub_idx_is(page@, m@, k as int);
            }
            k
        },
        None => {
            return None;
        },
    };
    let mlen: usize = m.unicode_len();
    let start: usize = k + mlen;
    let ghost rest = page@.skip(start as int);
    let mut p: usize = start;
    while p < n && ws_char(page.get_char(p))
        invariant
            n == page@.len(),
            start <= p <= n,
            forall|j: int| start <= j < p ==> is_ws(page@[j]),
        decreases n - p,
    {
        p = p + 1;
    }
    proof {
        assert forall|j: int| 0 <= j < p - start implies is_ws(rest[j]) by {
            assert(rest[j] == page@[start + j]);
        }
        if (p as int) - (start as int) < rest.len() {
            assert(rest[p - start] == page@[p as int]);
        }
        crate::text::lemma_lead_ws_is(rest, p - start as int);
        assert(rest.skip(lead_ws(rest)) =~= page@.skip(p as int));
    }
    if p == n {
        return None;
    }
    if page.get_char(p) != '=' {
        proof {
            assert(page@.skip(p as int)[0] == page@[p as int]);
        }
        return None;
    }
    proof {
        assert(page@.skip(p as int)[0] == page@[p as int]);
        assert(page@.skip(p as int).drop_first() =~= page@.skip(p + 1));
    }
    let mut q: usize = p + 1;
    let ghost r3 = page@.skip(q as int);
    while q < n && ws_char(page.get_char(q))
        invariant
            n == page@.len(),
            p + 1 <= q <= n,
            r3 == page@.skip(p + 1),
            forall|j: int| p + 1 <= j < q ==> is_ws(page@[j]),
        decreases n - q,
    {
        q = q + 1;
    }
    proof {
        assert forall|j: int| 0 <= j < q - (p + 1) implies is_ws(r3[j]) by {
            assert(r3[j] == page@[p + 1 + j]);
        }
        if (q as int) - (p as int + 1) < r3.len() {
            assert(r3[q - (p + 1)] == page@[q as int]);
        }
        crate::text::lemma_lead_ws_is(r3, q - (p as int + 1));
        assert(r3.skip(lead_ws(r3)) =~= page@.skip(q as int));
    }
    let tail: &str = page.substring_char(q, n);
    proof {
        assert(tail@ =~= page@.skip(q as int));
    }
    let sc = "</script>";
    let j: usize = match find_substr(tail, sc) {
        Some(j) => {
            proof {
                crate::text::lemma_first_sub_idx_is(tail@, sc@, j as int);
            }
            j
        },
        None => {
            return None;
        },
    };
    let body: &str = tail.substring_char(0, j);
    proof {
        assert(body@ =~= tail@.subrange(0, first_sub_idx(tail@, sc@)));
    }
    let t = trim_str(body);
    let tl: usize = t.as_str().unicode_len();
    if tl > 0 && t.as_str().get_char(tl - 1) == ';' {
        let cut: &str = t.as_str().substring_char(0, tl - 1);
        proof {
            assert(cut@ =~= t@.drop_last());
        }
        return Some(String::from_str(cut));
    }
    Some(t)
}

/// The shape of an instrument code decides which pipeline runs.
#[derive(Clone, Copy, Debug, PartialEq, Eq, Structural)]
pub enum InstrumentKind {
    Equity,
    Index,
    Currency,
}

/// A leading caret marks an index, a trailing currency suffix a currency
/// pair; everything else runs the default equity pipeline.
pub open spec fn classify_spec(code: Seq<char>) -> InstrumentKind {
    if code.len() > 0 && code[0] == '^' {
        InstrumentKind::Index
    } else if ends_with(code, "=X"@) || ends_with(code, "=FX"@) {
        InstrumentKind::Currency
    } else {
        InstrumentKind::Equity
    }
}

/// Classify an instrument code by its shape.
pub fn classify_code(code: &str) -> (r: InstrumentKind)
    ensures
        r == classify_spec(code@),
{
    if first_char_is(code, '^') {
        InstrumentKind::Index
    } else if ends_with_str(code, "=X") || ends_with_str(code, "=FX") {
        InstrumentKind::Currency
    } else {
        InstrumentKind::Equity
    }
}

/// The structured strategies on a parsed tree: the schema table first, the
/// generic key-set search second.
pub open spec fn structured_tree_lookup(
    tree: JsonVal,
    code: Seq<char>,
    sources: Seq<SchemaView>,
    keys: Seq<Seq<char>>,
) -> Option<QuoteView> {
    match schema_lookup_spec(tree, code, sources) {
        Some(q) => Some(q),
        None => generic_lookup_spec(tree, code, keys),
    }
}

/// The key set the generic fallback search demands of an object.
pub open spec fn generic_keys() -> Seq<Seq<char>> {
    seq!["code"@, "name"@]
}

/// The parsed embedded tree of a page, when a block is present and
/// well-formed.
pub open spec fn page_tree(page: Seq<char>) -> Option<JsonVal> {
    match block_spec(page) {
        Some(b) => json_parse(b),
        None => None,
    }
}

/// What the structured path yields on a page: nothing when the block is
/// absent or malformed — the cascade then advances — and otherwise the
/// first structured strategy that matches.
pub open spec fn structured_outcome(
    page: Seq<char>,
    code: Seq<char>,
    sources: Seq<SchemaView>,
) -> Option<QuoteView> {
    match page_tree(page) {
        Some(t) => structured_tree_lookup(t, code, sources, generic_keys()),
        None => None,
    }
}

/// All strategies exhausted: the fields for which no candidate exists.
#[derive(Debug)]
pub struct UnresolvedError {
    pub missing: Vec<String>,
}

/// The top-ranked candidate's text, or the absent-field marker.
pub open spec fn top_or_na(s: Seq<RankedCandidate>) -> Seq<char> {
    if s.len() > 0 {
        s[0]@.text
    } else {
        "N/A"@
    }
}

/// The record a resolved heuristic scan yields: the top-ranked candidate
/// of each field, the absent-field marker where a field has none.
pub open spec fn dom_record(d: DiscoveredFieldSet, code: Seq<char>) -> QuoteView {
    QuoteView {
        code: code,
        name: top_or_na(d.name_candidates@),
        price: top_or_na(d.price_candidates@),
        price_change: top_or_na(d.change_abs_candidates@),
        price_change_rate: top_or_na(d.change_pct_candidates@),
        update_time: top_or_na(d.update_time_candidates@),
        status: if d.name_candidates@.len() > 0 && d.price_candidates@.len() > 0
            && d.change_abs_candidates@.len() > 0 && d.change_pct_candidates@.len() > 0
            && d.update_time_candidates@.len() > 0 {
            RecordStatus::Complete
        } else {
            RecordStatus::Partial
        },
        source: SourceTag::Dom,
    }
}

/// The names of the fields that ended with no candidate.
pub open spec fn missing_fields(d: DiscoveredFieldSet) -> Seq<Seq<char>> {
    (if d.name_candidates@.len() == 0 {
        seq!["name"@]
    } else {
        Seq::<Seq<char>>::empty()
    }) + (if d.price_candidates@.len() == 0 {
        seq!["price"@]
    } else {
        Seq::<Seq<char>>::empty()
    }) + (if d.change_abs_candidates@.len() == 0 {
        seq!["price_change"@]
    } else {
        Seq::<Seq<char>>::empty()
    }) + (if d.change_pct_candidates@.len() == 0 {
        seq!["price_change_rate"@]
    } else {
        Seq::<Seq<char>>::empty()
    }) + (if d.update_time_candidates@.len() == 0 {
        seq!["update_time"@]
    } else {
        Seq::<Seq<char>>::empty()
    })
}

/// How a discovery resolves: with both required fields present the result
/// is the record of top candidates; otherwise the unresolved error names
/// every field that has no candidate.
pub open spec fn resolution(
    d: DiscoveredFieldSet,
    code: Seq<char>,
    r: Result<QuoteRecord, UnresolvedError>,
) -> bool {
    if d.name_candidates@.len() > 0 && d.price_candidates@.len() > 0 {
        r matches Ok(rec) && rec@ == dom_record(d, code)
    } else {
        r matches Err(e) && key_views(e.missing@) == missing_fields(d)
    }
}

/// The discovery that the code's shape demands: the default scan, the
/// index scan with the parsed embedded state, or the two-page currency
/// scan.
pub open spec fn kind_discovered(
    page: Seq<char>,
    fxpage: Seq<char>,
    code: Seq<char>,
    d: DiscoveredFieldSet,
) -> bool {
    match classify_spec(code) {
        InstrumentKind::Equity => equity_discovered(page, code, d),
        InstrumentKind::Index => index_discovered(page, page_tree(page), code, d),
        InstrumentKind::Currency => currency_discovered(page, fxpage, code, d),
    }
}

/// The whole extraction contract: the structured path wins when it yields
/// a record; otherwise the heuristic scan of the code's pipeline decides,
/// resolving to top candidates or to an unresolved error.
pub open spec fn extract_post(
    page: Seq<char>,
    fxpage: Seq<char>,
    code: Seq<char>,
    sources: Seq<SchemaView>,
    r: Result<QuoteRecord, UnresolvedError>,
) -> bool {
    match structured_outcome(page, code, sources) {
        Some(q) => r matches Ok(rec) && rec@ == q,
        None => exists|d: DiscoveredFieldSet|
            kind_discovered(page, fxpage, code, d) && resolution(d, code, r),
    }
}

/// The fixed key set for the generic fallback search.
fn generic_keys_exec() -> (r: Vec<String>)
    ensures
        key_views(r@) == generic_keys(),
{
    let mut v: Vec<String> = Vec::new();
    v.push(String::from_str("code"));
    v.push(String::from_str("name"));
    proof {
        assert(key_views(v@) =~= generic_keys());
    }
    v
}

/// Extract a quote record from fetched page text. `page` is the primary
/// page for the requested code; `fxpage` is the second page variant that
/// the currency pipeline merges change fields from (pass the primary page
/// again for other instruments). The strategies run in strict cascade
/// order: schema lookup, generic key-set search, heuristic scan.
pub fn extract_quote_from_page(
    code: &str,
    page: &str,
    fxpage: &str,
    sources: &Vec<SchemaSource>,
) -> (r: Result<QuoteRecord, UnresolvedError>)
    ensures
        extract_post(page@, fxpage@, code@, schema_views(sources@), r),
{
    let mut tree_holder: Option<JsonNode> = None;
    match locate_block(page) {
        Some(block) => {
            match parse_structured(block.as_str()) {
                Some(tree) => {
                    match schema_lookup(&tree, code, sources) {
                        Some(q) => {
                            return Ok(q);
                        },
                        None => {},
                    }
                    let keys = generic_keys_exec();
                    match generic_lookup(&tree, code, &keys) {
                        Some(q) => {
                            return Ok(q);
                        },
                        None => {},
                    }
                    tree_holder = Some(tree);
                },
                None => {},
            }
        },
        None => {},
    }
    proof {
        assert(structured_outcome(page@, code@, schema_views(sources@)) is None);
        assert(page_tree(page@) == tree_opt_view(tree_holder));
    }
    let d: DiscoveredFieldSet = match classify_code(code) {
        InstrumentKind::Equity => discover_data(code, page),
        InstrumentKind::Index => discover_index_data(code, page, &tree_holder),
        InstrumentKind::Currency => discover_currency_data(code, page, fxpage),
    };
    proof {
        assert(kind_discovered(page@, fxpage@, code@, d));
    }
    resolve_discovery(d, code)
}

/// Resolve one discovery attempt: with name and price candidates present,
/// the record of top candidates tagged as heuristically found; otherwise
/// the unresolved error naming every field with no candidate.
fn resolve_discovery(d: DiscoveredFieldSet, code: &str) -> (r: Result<
    QuoteRecord,
    UnresolvedError,
>)
    ensures
        resolution(d, code@, r),
{
    if d.name_candidates.len() > 0 && d.price_candidates.len() > 0 {
        let all = d.change_abs_candidates.len() > 0 && d.change_pct_candidates.len() > 0
            && d.update_time_candidates.len() > 0;
        let rec = QuoteRecord {
            code: String::from_str(code),
            name: d.name_candidates[0].text.clone(),
            price: d.price_candidates[0].text.clone(),
            price_change: top_text_or_na(&d.change_abs_candidates),
            price_change_rate: top_text_or_na(&d.change_pct_candidates),
            update_time: top_text_or_na(&d.update_time_candidates),
            status: if all {
                RecordStatus::Complete
            } else {
                RecordStatus::Partial
            },
            source: SourceTag::Dom,
        };
        Ok(rec)
    } else {
        let mut missing: Vec<String> = Vec::new();
        if d.name_candidates.len() == 0 {
            missing.push(String::from_str("name"));
        }
        if d.price_candidates.len() == 0 {
            missing.push(String::from_str("price"));
        }
        if d.change_abs_candidates.len() == 0 {
            missing.push(String::from_str("price_change"));
        }
        if d.change_pct_candidates.len() == 0 {
            missing.push(String::from_str("price_change_rate"));
        }
        if d.update_time_candidates.len() == 0 {
            missing.push(String::from_str("update_time"));
        }
        proof {
            assert(key_views(missing@) =~= missing_fields(d));
        }
        Err(UnresolvedError { missing })
    }
}

/// The top candidate's text, or the absent-field marker.
fn top_text_or_na(s: &Vec<RankedCandidate>) -> (r: String)
    ensures
        r@ == top_or_na(s@),
{
    if s.len() > 0 {
        s[0].text.clone()
    } else {
        String::from_str("N/A")
    }
}

/// Every record the schema table yields is tagged as schema-sourced.
pub proof fn lemma_schema_source_tag(tree: JsonVal, code: Seq<char>, sources: Seq<SchemaView>)
    ensures
        schema_lookup_spec(tree, code, sources) matches Some(q) ==> q.source
            == SourceTag::Schema,
    decreases sources.len(),
{
    if sources.len() > 0 {
        lemma_schema_source_tag(tree, code, sources.drop_first());
    }
}

/// Cascade precedence: when a schema of the table matches, the structured
/// lookup returns exactly the schema's record, tagged as schema-sourced —
/// never the generic search's, whatever it would find.
pub proof fn lemma_cascade_precedence(
    tree: JsonVal,
    code: Seq<char>,
    sources: Seq<SchemaView>,
    keys: Seq<Seq<char>>,
)
    requires
        schema_lookup_spec(tree, code, sources) is Some,
    ensures
        structured_tree_lookup(tree, code, sources, keys) == schema_lookup_spec(
            tree,
            code,
            sources,
        ),
        structured_tree_lookup(tree, code, sources, keys) matches Some(q) ==> q.source
            == SourceTag::Schema,
{
    lemma_schema_source_tag(tree, code, sources);
}

/// Extraction is deterministic: two results that both satisfy the
/// extraction contract for the same page texts and code agree — same
/// record content, or the same missing-field list.
pub proof fn lemma_extract_deterministic(
    page: Seq<char>,
    fxpage: Seq<char>,
    code: Seq<char>,
    sources: Seq<SchemaView>,
    r1: Result<QuoteRecord, UnresolvedError>,
    r2: Result<QuoteRecord, UnresolvedError>,
)
    requires
        extract_post(page, fxpage, code, sources, r1),
        extract_post(page, fxpage, code, sources, r2),
    ensures
        r1 matches Ok(a) ==> (r2 matches Ok(b) && a@ == b@),
        r1 matches Err(a) ==> (r2 matches Err(b) && key_views(a.missing@) == key_views(
            b.missing@,
        )),
{
    match structured_outcome(page, code, sources) {
        Some(q) => {},
        None => {
            let d1 = choose|d: DiscoveredFieldSet|
                kind_discovered(page, fxpage, code, d) && resolution(d, code, r1);
            let d2 = choose|d: DiscoveredFieldSet|
                kind_discovered(page, fxpage, code, d) && resolution(d, code, r2);
            match classify_spec(code) {
                InstrumentKind::Equity => {
                    lemma_equity_discovery_unique(page, code, d1, d2);
                },
                InstrumentKind::Index => {
                    lemma_index_discovery_unique(page, page_tree(page), code, d1, d2);
                },
                InstrumentKind::Currency => {
                    lemma_currency_discovery_unique(page, fxpage, code, d1, d2);
                },
            }
            assert(top_or_na(d1.name_candidates@) == top_or_na(d2.name_candidates@));
            assert(top_or_na(d1.price_candidates@) == top_or_na(d2.price_candidates@));
            assert(top_or_na(d1.change_abs_candidates@) == top_or_na(d2.change_abs_candidates@));
            assert(top_or_na(d1.change_pct_candidates@) == top_or_na(d2.change_pct_candidates@));
            assert(top_or_na(d1.update_time_candidates@) == top_or_na(
                d2.update_time_candidates@,
            ));
        },
    }
}

/// The flat scrape result: the chosen value of each field and, for the
/// self-healing surface, a synthesized query that would re-locate it.
pub struct DynamicScrapeResult {
    pub data: StockData,
    pub name_selector: String,
    pub price_selector: String,
    pub change_abs_selector: String,
    pub change_pct_selector: String,
    pub update_time_selector: String,
}

/// The first synthesized query for a target, or empty when synthesis
/// found none.
pub open spec fn first_sel(html: Seq<char>, target: Seq<char>) -> Seq<char> {
    if synthesize_spec(html, target).len() > 0 {
        synthesize_spec(html, target)[0]
    } else {
        Seq::empty()
    }
}

/// The selector recorded for one field: synthesized from the field's top
/// candidate, empty when the field has none.
pub open spec fn sel_of_field(html: Seq<char>, cands: Seq<RankedCandidate>) -> Seq<char> {
    if cands.len() > 0 {
        first_sel(html, cands[0]@.text)
    } else {
        Seq::empty()
    }
}

/// The scrape result `r` renders the discovery `d`: top candidates as the
/// chosen values, and for each present field a query synthesized against
/// the primary page.
pub open spec fn scrape_renders(
    page: Seq<char>,
    code: Seq<char>,
    d: DiscoveredFieldSet,
    r: DynamicScrapeResult,
) -> bool {
    &&& r.data.code@ == code
    &&& r.data.name@ == top_or_empty(d.name_candidates@)
    &&& r.data.price@ == top_or_empty(d.price_candidates@)
    &&& r.data.change_abs@ == top_or_empty(d.change_abs_candidates@)
    &&& r.data.change_pct@ == top_or_empty(d.change_pct_candidates@)
    &&& r.data.update_time@ == top_or_empty(d.update_time_candidates@)
    &&& r.name_selector@ == sel_of_field(page, d.name_candidates@)
    &&& r.price_selector@ == sel_of_field(page, d.price_candidates@)
    &&& r.change_abs_selector@ == sel_of_field(page, d.change_abs_candidates@)
    &&& r.change_pct_selector@ == sel_of_field(page, d.change_pct_candidates@)
    &&& r.update_time_selector@ == sel_of_field(page, d.update_time_candidates@)
}

/// The selector recorded for one field.
fn field_selector(page: &str, cands: &Vec<RankedCandidate>) -> (r: String)
    ensures
        r@ == sel_of_field(page@, cands@),
{
    if cands.len() > 0 {
        let queries = generate_selector_candidates(page, cands[0].text.as_str());
        if queries.len() > 0 {
            proof {
                assert(key_views(queries@)[0] == queries@[0]@);
            }
            queries[0].clone()
        } else {
            String::new()
        }
    } else {
        String::new()
    }
}

/// Scrape with self-healing: run the code's discovery pipeline, take the
/// top candidate of every field, and synthesize for each present field a
/// query that would re-locate its text on the primary page.
pub fn scrape_dynamically(code: &str, page: &str, fxpage: &str) -> (r: DynamicScrapeResult)
    ensures
        exists|d: DiscoveredFieldSet|
            kind_discovered(page@, fxpage@, code@, d) && scrape_renders(page@, code@, d, r),
{
    let mut tree_holder: Option<JsonNode> = None;
    match classify_code(code) {
        InstrumentKind::Index => {
            match locate_block(page) {
                Some(block) => {
                    tree_holder = parse_structured(block.as_str());
                },
                None => {},
            }
        },
        _ => {},
    }
    let d: DiscoveredFieldSet = match classify_code(code) {
        InstrumentKind::Equity => discover_data(code, page),
        InstrumentKind::Index => {
            proof {
                assert(page_tree(page@) == tree_opt_view(tree_holder));
            }
            discover_index_data(code, page, &tree_holder)
        },
        InstrumentKind::Currency => discover_currency_data(code, page, fxpage),
    };
    proof {
        assert(kind_discovered(page@, fxpage@, code@, d));
    }
    let result = DynamicScrapeResult {
        data: stock_data_from(&d, code),
        name_selector: field_selector(page, &d.name_candidates),
        price_selector: field_selector(page, &d.price_candidates),
        change_abs_selector: field_selector(page, &d.change_abs_candidates),
        change_pct_selector: field_selector(page, &d.change_pct_candidates),
        update_time_selector: field_selector(page, &d.update_time_candidates),
    };
    proof {
        assert(scrape_renders(page@, code@, d, result));
    }
    result
}

proof fn lemma_first_char_idx_bounds(s: Seq<char>, c: char)
    ensures
        0 <= first_char_idx(s, c) <= s.len(),
        has_char(s, c) ==> first_char_idx(s, c) < s.len(),
    decreases s.len(),
{
    if s.len() > 0 && s[0] != c {
        lemma_first_char_idx_bounds(s.drop_first(), c);
        if has_char(s, c) {
            let i = choose|i: int| 0 <= i < s.len() && s[i] == c;
            assert(s.drop_first()[i - 1] == c);
        }
    }
}

/// The codes of a comma-separated batch request: each part trimmed, empty
/// parts dropped.
pub open spec fn split_codes_spec(s: Seq<char>) -> Seq<Seq<char>>
    decreases s.len(),
    via split_codes_dec
{
    if !has_char(s, ',') {
        let t = trim_spec(s);
        if t.len() > 0 {
            seq![t]
        } else {
            Seq::empty()
        }
    } else {
        let t = trim_spec(prefix_before(s, ','));
        (if t.len() > 0 {
            seq![t]
        } else {
            Seq::<Seq<char>>::empty()
        }) + split_codes_spec(s.skip(first_char_idx(s, ',') + 1))
    }
}

#[via_fn]
proof fn split_codes_dec(s: Seq<char>) {
    if has_char(s, ',') {
        lemma_first_char_idx_bounds(s, ',');
    }
}

/// Split a comma-separated batch request into its codes, trimmed, with
/// empty parts dropped.
pub fn parse_code_list(s: &str) -> (r: Vec<String>)
    ensures
        key_views(r@) == split_codes_spec(s@),
    decreases s@.len(),
{
    let mut out: Vec<String> = Vec::new();
    match find_char(s, ',') {
        None => {
            let t = trim_str(s);
            if t.as_str().unicode_len() > 0 {
                out.push(t);
            }
            proof {
                assert(key_views(out@) =~= split_codes_spec(s@));
            }
            out
        },
        Some(k) => {
            proof {
                crate::text::lemma_first_char_idx_is(s@, ',', k as int);
            }
            let n: usize = s.unicode_len();
            let head: &str = s.substring_char(0, k);
            proof {
                assert(head@ =~= prefix_before(s@, ','));
            }
            let t = trim_str(head);
            if t.as_str().unicode_len() > 0 {
                out.push(t);
            }
            let tail: &str = s.substring_char(k + 1, n);
            proof {
                assert(tail@ =~= s@.skip(first_char_idx(s@, ',') + 1));
            }
            let mut rest = parse_code_list(tail);
            let ghost before = out@;
            let ghost rest0 = rest@;
            out.append(&mut rest);
            proof {
                assert(key_views(out@) =~= key_views(before) + key_views(rest0));
                assert(key_views(out@) =~= split_codes_spec(s@));
            }
            out
        },
    }
}

/// The page address a code is fetched from: codes without an explicit
/// market qualifier get the default market suffix.
pub open spec fn quote_url_spec(code: Seq<char>) -> Seq<char> {
    let qualified = if (code.len() > 0 && code[0] == '^') || has_char(code, '=') || ends_with(
        code,
        ".T"@,
    ) || ends_with(code, ".O"@) {
        code
    } else {
        code + ".T"@
    };
    "https://finance.yahoo.co.jp/quote/"@ + qualified + "/"@
}

/// Build the page address for a code.
pub fn quote_url_for(code: &str) -> (r: String)
    ensures
        r@ == quote_url_spec(code@),
{
    let qualified: String = if first_char_is(code, '^') || crate::text::contains_char(code, '=')
        || ends_with_str(code, ".T") || ends_with_str(code, ".O") {
        String::from_str(code)
    } else {
        String::from_str(code).concat(".T")
    };
    let r = String::from_str("https://finance.yahoo.co.jp/quote/").concat(
        qualified.as_str(),
    ).concat("/");
    proof {
        assert(r@ =~= quote_url_spec(code@));
    }
    r
}

/// The two page codes of a currency pair: the rate page variant and the
/// board page variant.
pub open spec fn currency_pair_codes(code: Seq<char>) -> (Seq<char>, Seq<char>) {
    let stem = if ends_with(code, "=FX"@) {
        code.subrange(0, code.len() - 3)
    } else if ends_with(code, "=X"@) {
        code.subrange(0, code.len() - 2)
    } else {
        code
    };
    (stem + "=X"@, stem + "=FX"@)
}

/// Build the two page codes of a currency pair.
pub fn currency_page_codes(code: &str) -> (r: (String, String))
    ensures
        r.0@ == currency_pair_codes(code@).0,
        r.1@ == currency_pair_codes(code@).1,
{
    proof {
        reveal_strlit("=FX");
        reveal_strlit("=X");
    }
    let n: usize = code.unicode_len();
    let stem: String = if ends_with_str(code, "=FX") {
        String::from_str(code.substring_char(0, n - 3))
    } else if ends_with_str(code, "=X") {
        String::from_str(code.substring_char(0, n - 2))
    } else {
        String::from_str(code)
    };
    let x = stem.clone().concat("=X");
    let fx = stem.concat("=FX");
    proof {
        assert(x@ =~= currency_pair_codes(code@).0);
        assert(fx@ =~= currency_pair_codes(code@).1);
    }
    (x, fx)
}

/// The value a record holds under a logical field name, if the name is one
/// of the known fields.
pub open spec fn field_of(q: QuoteView, name: Seq<char>) -> Option<Seq<char>> {
    if name == "code"@ {
        Some(q.code)
    } else if name == "name"@ {
        Some(q.name)
    } else if name == "price"@ {
        Some(q.price)
    } else if name == "price_change"@ {
        Some(q.price_change)
    } else if name == "price_change_rate"@ {
        Some(q.price_change_rate)
    } else if name == "update_time"@ {
        Some(q.update_time)
    } else {
        None
    }
}

/// Read one logical field of a record by name.
pub fn field_value(q: &QuoteRecord, name: &str) -> (r: Option<String>)
    ensures
        match r {
            Some(s) => field_of(q@, name@) == Some(s@),
            None => field_of(q@, name@) is None,
        },
{
    if crate::text::str_eq(name, "code") {
        Some(q.code.clone())
    } else if crate::text::str_eq(name, "name") {
        Some(q.name.clone())
    } else if crate::text::str_eq(name, "price") {
        Some(q.price.clone())
    } else if crate::text::str_eq(name, "price_change") {
        Some(q.price_change.clone())
    } else if crate::text::str_eq(name, "price_change_rate") {
        Some(q.price_change_rate.clone())
    } else if crate::text::str_eq(name, "update_time") {
        Some(q.update_time.clone())
    } else {
        None
    }
}

} // verus!
