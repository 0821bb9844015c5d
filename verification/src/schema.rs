//! Quote records and the structured-data strategies: lookup through a table
//! of known schema shapes, and the generic key-set fallback search.
use vstd::prelude::*;

use crate::text::{comparison_key, normalize_code, str_eq, trim_spec, trim_str};
use crate::tree::{
    collect_paths, find_object, find_object_paths, get_string_value, key_views, obj_lookup,
    obj_string, obj_view, paths_view, resolve_path, steps_view, tree_get_path, tree_resolve,
    JsonNode, JsonVal, PathStep, StepView,
};

verus! {

/// Which extraction strategy produced a record.
#[derive(Clone, Copy, Debug, PartialEq, Eq, Structural)]
pub enum SourceTag {
    Schema,
    Generic,
    Dom,
}

/// How complete the produced record is.
#[derive(Clone, Copy, Debug, PartialEq, Eq, Structural)]
pub enum RecordStatus {
    Complete,
    Partial,
    Failed,
}

/// A normalized quote record. All fields keep the exact source text.
#[derive(Debug)]
pub struct QuoteRecord {
    pub code: String,
    pub name: String,
    pub price: String,
    pub price_change: String,
    pub price_change_rate: String,
    pub update_time: String,
    pub status: RecordStatus,
    pub source: SourceTag,
}

/// The mathematical content of a quote record.
pub struct QuoteView {
    pub code: Seq<char>,
    pub name: Seq<char>,
    pub price: Seq<char>,
    pub price_change: Seq<char>,
    pub price_change_rate: Seq<char>,
    pub update_time: Seq<char>,
    pub status: RecordStatus,
    pub source: SourceTag,
}

impl View for QuoteRecord {
    type V = QuoteView;

    open spec fn view(&self) -> QuoteView {
        QuoteView {
            code: self.code@,
            name: self.name@,
            price: self.price@,
            price_change: self.price_change@,
            price_change_rate: self.price_change_rate@,
            update_time: self.update_time@,
            status: self.status,
            source: self.source,
        }
    }
}

/// One known shape of embedded structured data: the key path to the quote
/// object, the physical key for each logical field, and whether the market
/// suffix must be stripped off the requested code before comparing.
pub struct SchemaSource {
    pub path: Vec<String>,
    pub code_key: String,
    pub name_key: String,
    pub price_key: String,
    pub change_key: String,
    pub change_rate_key: String,
    pub time_key: String,
    pub strip_suffix: bool,
}

/// The mathematical content of a schema source.
pub struct SchemaView {
    pub path: Seq<Seq<char>>,
    pub code_key: Seq<char>,
    pub name_key: Seq<char>,
    pub price_key: Seq<char>,
    pub change_key: Seq<char>,
    pub change_rate_key: Seq<char>,
    pub time_key: Seq<char>,
    pub strip_suffix: bool,
}

impl View for SchemaSource {
    type V = SchemaView;

    open spec fn view(&self) -> SchemaView {
        SchemaView {
            path: key_views(self.path@),
            code_key: self.code_key@,
            name_key: self.name_key@,
            price_key: self.price_key@,
            change_key: self.change_key@,
            change_rate_key: self.change_rate_key@,
            time_key: self.time_key@,
            strip_suffix: self.strip_suffix,
        }
    }
}

/// The views of a schema table.
pub open spec fn schema_views(s: Seq<SchemaSource>) -> Seq<SchemaView> {
    s.map_values(|x: SchemaSource| x@)
}

/// The plain text of the scalar stored under `key`, with `"N/A"` for an
/// absent key. A string keeps its content, a number its exact rendering;
/// composite values are not flattened and read as absent.
pub open spec fn field_text(o: Seq<(Seq<char>, JsonVal)>, key: Seq<char>) -> Seq<char> {
    match obj_lookup(o, key) {
        Some(JsonVal::Str(s)) => s,
        Some(JsonVal::Num(s)) => s,
        Some(JsonVal::Bool(b)) => if b {
            "true"@
        } else {
            "false"@
        },
        Some(JsonVal::Null) => "null"@,
        Some(JsonVal::Arr(_)) => "N/A"@,
        Some(JsonVal::Obj(_)) => "N/A"@,
        None => "N/A"@,
    }
}

/// The string stored under `key`, with `"N/A"` for an absent or non-string
/// value.
pub open spec fn string_or_na(o: Seq<(Seq<char>, JsonVal)>, key: Seq<char>) -> Seq<char> {
    match obj_string(o, key) {
        Some(s) => s,
        None => "N/A"@,
    }
}

/// The record that schema `s` yields from the object entries `o`, given the
/// code value `found` read from the object.
pub open spec fn schema_record(
    o: Seq<(Seq<char>, JsonVal)>,
    s: SchemaView,
    found: Seq<char>,
) -> QuoteView {
    QuoteView {
        code: found,
        name: string_or_na(o, s.name_key),
        price: field_text(o, s.price_key),
        price_change: field_text(o, s.change_key),
        price_change_rate: field_text(o, s.change_rate_key),
        update_time: string_or_na(o, s.time_key),
        status: RecordStatus::Complete,
        source: SourceTag::Schema,
    }
}

/// What one schema yields on `tree` for the requested `code`: descend the
/// schema's key path; the target must be an object whose code field is a
/// string equal — after trimming and optional suffix-stripping — to the
/// normalized requested code.
pub open spec fn schema_match(tree: JsonVal, code: Seq<char>, s: SchemaView) -> Option<
    QuoteView,
> {
    match tree_get_path(tree, s.path) {
        Some(JsonVal::Obj(o)) => match obj_string(o, s.code_key) {
            Some(found) => if trim_spec(found) == comparison_key(code, s.strip_suffix) {
                Some(schema_record(o, s, found))
            } else {
                None
            },
            None => None,
        },
        _ => None,
    }
}

/// The first schema of `sources` that matches wins.
pub open spec fn schema_lookup_spec(
    tree: JsonVal,
    code: Seq<char>,
    sources: Seq<SchemaView>,
) -> Option<QuoteView>
    decreases sources.len(),
{
    if sources.len() == 0 {
        None
    } else {
        match schema_match(tree, code, sources[0]) {
            Some(q) => Some(q),
            None => schema_lookup_spec(tree, code, sources.drop_first()),
        }
    }
}

/// The built-in schema table: the known locations of quote data for
/// equities, currency pairs and domestic indices, in priority order.
pub open spec fn default_sources_spec() -> Seq<SchemaView> {
    seq![
        SchemaView {
            path: seq!["mainStocksPriceBoard"@, "priceBoard"@],
            code_key: "code"@,
            name_key: "name"@,
            price_key: "price"@,
            change_key: "priceChange"@,
            change_rate_key: "priceChangeRate"@,
            time_key: "priceDateTime"@,
            strip_suffix: true,
        },
        SchemaView {
            path: seq!["mainCurrencyPriceBoard"@, "currencyPrices"@],
            code_key: "currencyPairCode"@,
            name_key: "currencyPairName"@,
            price_key: "bid"@,
            change_key: "priceChange"@,
            change_rate_key: "priceChangeRate"@,
            time_key: "priceUpdateTime"@,
            strip_suffix: false,
        },
        SchemaView {
            path: seq!["mainDomesticIndexPriceBoard"@, "indexPrices"@],
            code_key: "code"@,
            name_key: "name"@,
            price_key: "price"@,
            change_key: "changePrice"@,
            change_rate_key: "changePriceRate"@,
            time_key: "japanUpdateTime"@,
            strip_suffix: false,
        },
    ]
}

fn mk_source(
    p0: &str,
    p1: &str,
    code_key: &str,
    name_key: &str,
    price_key: &str,
    change_key: &str,
    change_rate_key: &str,
    time_key: &str,
    strip_suffix: bool,
) -> (r: SchemaSource)
    ensures
        r@ == (SchemaView {
            path: seq![p0@, p1@],
            code_key: code_key@,
            name_key: name_key@,
            price_key: price_key@,
            change_key: change_key@,
            change_rate_key: change_rate_key@,
            time_key: time_key@,
            strip_suffix,
        }),
{
    let mut path: Vec<String> = Vec::new();
    path.push(String::from_str(p0));
    path.push(String::from_str(p1));
    proof {
        assert(key_views(path@) =~= seq![p0@, p1@]);
    }
    SchemaSource {
        path,
        code_key: String::from_str(code_key),
        name_key: String::from_str(name_key),
        price_key: String::from_str(price_key),
        change_key: String::from_str(change_key),
        change_rate_key: String::from_str(change_rate_key),
        time_key: String::from_str(time_key),
        strip_suffix,
    }
}

/// Build the built-in schema table.
pub fn get_data_sources() -> (r: Vec<SchemaSource>)
    ensures
        schema_views(r@) == default_sources_spec(),
{
    let mut v: Vec<SchemaSource> = Vec::new();
    v.push(
        mk_source(
            "mainStocksPriceBoard",
            "priceBoard",
            "code",
            "name",
            "price",
            "priceChange",
            "priceChangeRate",
            "priceDateTime",
            true,
        ),
    );
    v.push(
        mk_source(
            "mainCurrencyPriceBoard",
            "currencyPrices",
            "currencyPairCode",
            "currencyPairName",
            "bid",
            "priceChange",
            "priceChangeRate",
            "priceUpdateTime",
            false,
        ),
    );
    v.push(
        mk_source(
            "mainDomesticIndexPriceBoard",
            "indexPrices",
            "code",
            "name",
            "price",
            "changePrice",
            "changePriceRate",
            "japanUpdateTime",
            false,
        ),
    );
    proof {
        assert(schema_views(v@) =~= default_sources_spec());
    }
    v
}

/// A fresh `"N/A"` marker.
fn na_string() -> (r: String)
    ensures
        r@ == "N/A"@,
{
    String::from_str("N/A")
}

/// Find the entry stored under `key` in an entry list.
fn obj_get<'a>(entries: &'a Vec<(String, JsonNode)>, key: &str) -> (r: Option<&'a JsonNode>)
    ensures
        match r {
            Some(m) => obj_lookup(obj_view(entries@), key@) == Some(m@),
            None => obj_lookup(obj_view(entries@), key@) is None,
        },
{
    match crate::tree::obj_entry(entries, key) {
        Some(m) => Some(m),
        None => None,
    }
}

/// Executable rendering of `field_text`.
fn field_text_exec(entries: &Vec<(String, JsonNode)>, key: &str) -> (r: String)
    ensures
        r@ == field_text(obj_view(entries@), key@),
{
    match obj_get(entries, key) {
        Some(node) => match node {
            JsonNode::Str(s) => s.clone(),
            JsonNode::Num(s) => s.clone(),
            JsonNode::Bool(b) => if *b {
                String::from_str("true")
            } else {
                String::from_str("false")
            },
            JsonNode::Null => String::from_str("null"),
            _ => na_string(),
        },
        None => na_string(),
    }
}

/// Executable rendering of `string_or_na`.
fn string_or_na_exec(entries: &Vec<(String, JsonNode)>, key: &str) -> (r: String)
    ensures
        r@ == string_or_na(obj_view(entries@), key@),
{
    match get_string_value(entries, key) {
        Some(s) => s.clone(),
        None => na_string(),
    }
}

/// Try each schema in priority order against the parsed structured-data
/// tree; on the first whose code field matches the requested code, extract
/// every mapped field, substituting `"N/A"` for absent keys.
pub fn schema_lookup(tree: &JsonNode, code: &str, sources: &Vec<SchemaSource>) -> (r: Option<
    QuoteRecord,
>)
    ensures
        match r {
            Some(q) => schema_lookup_spec(tree@, code@, schema_views(sources@)) == Some(q@),
            None => schema_lookup_spec(tree@, code@, schema_views(sources@)) is None,
        },
{
    let ghost svs = schema_views(sources@);
    proof {
        assert(svs.skip(0) =~= svs);
    }
    let mut i: usize = 0;
    while i < sources.len()
        invariant
            svs == schema_views(sources@),
            svs.len() == sources@.len(),
            forall|k: int| 0 <= k < svs.len() ==> svs[k] == sources@[k]@,
            0 <= i <= sources@.len(),
            schema_lookup_spec(tree@, code@, svs) == schema_lookup_spec(
                tree@,
                code@,
                svs.skip(i as int),
            ),
        decreases sources@.len() - i,
    {
        let ghost rest = svs.skip(i as int);
        proof {
            assert(rest[0] == svs[i as int]);
            assert(rest.drop_first() =~= svs.skip(i as int + 1));
        }
        let source = &sources[i];
        match find_object(tree, &source.path) {
            Some(entries) => {
                match get_string_value(entries, source.code_key.as_str()) {
                    Some(found_code) => {
                        let trimmed = trim_str(found_code.as_str());
                        let wanted = normalize_code(code, source.strip_suffix);
                        if str_eq(trimmed.as_str(), wanted.as_str()) {
                            let q = QuoteRecord {
                                code: found_code.clone(),
                                name: string_or_na_exec(entries, source.name_key.as_str()),
                                price: field_text_exec(entries, source.price_key.as_str()),
                                price_change: field_text_exec(
                                    entries,
                                    source.change_key.as_str(),
                                ),
                                price_change_rate: field_text_exec(
                                    entries,
                                    source.change_rate_key.as_str(),
                                ),
                                update_time: string_or_na_exec(
                                    entries,
                                    source.time_key.as_str(),
                                ),
                                status: RecordStatus::Complete,
                                source: SourceTag::Schema,
                            };
                            return Some(q);
                        }
                    },
                    None => {},
                }
            },
            None => {},
        }
        i = i + 1;
    }
    proof {
        assert(svs.skip(i as int) =~= Seq::<SchemaView>::empty());
    }
    None
}

/// The record the generic fallback builds from object entries `o` whose
/// code field read `found`: a small fixed mapping for the common field
/// names.
pub open spec fn generic_record(o: Seq<(Seq<char>, JsonVal)>, found: Seq<char>) -> QuoteView {
    QuoteView {
        code: found,
        name: string_or_na(o, "name"@),
        price: field_text(o, "price"@),
        price_change: field_text(o, "priceChange"@),
        price_change_rate: field_text(o, "priceChangeRate"@),
        update_time: field_text(o, "priceDateTime"@),
        status: RecordStatus::Complete,
        source: SourceTag::Generic,
    }
}

/// What one discovered path yields: the path must lead to an object whose
/// code field is a string equal, after trimming, to the wanted key.
pub open spec fn generic_try(tree: JsonVal, path: Seq<StepView>, want: Seq<char>) -> Option<
    QuoteView,
> {
    match tree_resolve(tree, path) {
        Some(JsonVal::Obj(o)) => match obj_string(o, "code"@) {
            Some(found) => if trim_spec(found) == want {
                Some(generic_record(o, found))
            } else {
                None
            },
            None => None,
        },
        _ => None,
    }
}

/// The first discovered path whose object matches wins.
pub open spec fn generic_scan(
    tree: JsonVal,
    paths: Seq<Seq<StepView>>,
    want: Seq<char>,
) -> Option<QuoteView>
    decreases paths.len(),
{
    if paths.len() == 0 {
        None
    } else {
        match generic_try(tree, paths[0], want) {
            Some(q) => Some(q),
            None => generic_scan(tree, paths.drop_first(), want),
        }
    }
}

/// What the generic key-set fallback yields on `tree` for `code`: walk the
/// whole tree for objects holding all of `keys`, in depth-first document
/// order, and take the first whose code field matches the requested code
/// with its market suffix stripped.
pub open spec fn generic_lookup_spec(
    tree: JsonVal,
    code: Seq<char>,
    keys: Seq<Seq<char>>,
) -> Option<QuoteView> {
    generic_scan(tree, collect_paths(tree, keys, Seq::empty()), comparison_key(code, true))
}

/// Search the whole structured-data tree for objects carrying all of
/// `keys`; on the first whose code field matches the requested code,
/// extract the common fields through the generic fallback mapping.
pub fn generic_lookup(tree: &JsonNode, code: &str, keys: &Vec<String>) -> (r: Option<
    QuoteRecord,
>)
    ensures
        match r {
            Some(q) => generic_lookup_spec(tree@, code@, key_views(keys@)) == Some(q@),
            None => generic_lookup_spec(tree@, code@, key_views(keys@)) is None,
        },
{
    let mut current_path: Vec<PathStep> = Vec::new();
    let mut found: Vec<Vec<PathStep>> = Vec::new();
    proof {
        assert(steps_view(current_path@) =~= Seq::<StepView>::empty());
        assert(paths_view(found@) =~= Seq::<Seq<StepView>>::empty());
    }
    find_object_paths(tree, keys, &mut current_path, &mut found);
    let ghost pv = paths_view(found@);
    proof {
        assert(pv =~= collect_paths(tree@, key_views(keys@), Seq::empty()));
        assert(pv.skip(0) =~= pv);
    }
    let want = normalize_code(code, true);
    let mut i: usize = 0;
    while i < found.len()
        invariant
            pv == paths_view(found@),
            pv == collect_paths(tree@, key_views(keys@), Seq::empty()),
            pv.len() == found@.len(),
            forall|k: int| 0 <= k < pv.len() ==> pv[k] == steps_view(found@[k]@),
            want@ == comparison_key(code@, true),
            0 <= i <= found@.len(),
            generic_scan(tree@, pv, want@) == generic_scan(tree@, pv.skip(i as int), want@),
        decreases found@.len() - i,
    {
        let ghost rest = pv.skip(i as int);
        proof {
            assert(rest[0] == pv[i as int]);
            assert(rest.drop_first() =~= pv.skip(i as int + 1));
        }
        match resolve_path(tree, &found[i]) {
            Some(target) => {
                match target {
                    JsonNode::Obj(entries) => {
                        match get_string_value(entries, "code") {
                            Some(found_code) => {
                                let trimmed = trim_str(found_code.as_str());
                                if str_eq(trimmed.as_str(), want.as_str()) {
                                    let q = QuoteRecord {
                                        code: found_code.clone(),
                                        name: string_or_na_exec(entries, "name"),
                                        price: field_text_exec(entries, "price"),
                                        price_change: field_text_exec(entries, "priceChange"),
                                        price_change_rate: field_text_exec(
                                            entries,
                                            "priceChangeRate",
                                        ),
                                        update_time: field_text_exec(entries, "priceDateTime"),
                                        status: RecordStatus::Complete,
                                        source: SourceTag::Generic,
                                    };
                                    proof {
                                        let o = obj_view(entries@);
                                        assert(target@ == JsonVal::Obj(o));
                                        assert(tree_resolve(tree@, pv[i as int]) == Some(
                                            target@,
                                        ));
                                        assert(generic_try(tree@, pv[i as int], want@) == Some(
                                            generic_record(o, found_code@),
                                        ));
                                        assert(q@ == generic_record(o, found_code@));
                                    }
                                    return Some(q);
                                }
                            },
                            None => {},
                        }
                    },
                    _ => {},
                }
            },
            None => {},
        }
        i = i + 1;
    }
    proof {
        assert(pv.skip(i as int) =~= Seq::<Seq<StepView>>::empty());
    }
    None
}

} // verus!
