//! The document boundary: what a structural query returns on a page is
//! taken from the HTML engine and named, so that everything built on top of
//! it can be verified as a function of the page text alone.
use vstd::prelude::*;

verus! {

/// What the library reads of one matched element: tag name, collected text,
/// class attribute and outer markup, all as plain strings.
pub struct ElemInfo {
    pub tag: String,
    pub text: String,
    pub class_attr: String,
    pub html: String,
}

/// The mathematical content of a matched element.
pub struct ElemView {
    pub tag: Seq<char>,
    pub text: Seq<char>,
    pub class_attr: Seq<char>,
    pub html: Seq<char>,
}

impl View for ElemInfo {
    type V = ElemView;

    open spec fn view(&self) -> ElemView {
        ElemView {
            tag: self.tag@,
            text: self.text@,
            class_attr: self.class_attr@,
            html: self.html@,
        }
    }
}

/// The views of a sequence of matched elements.
pub open spec fn elem_views(s: Seq<ElemInfo>) -> Seq<ElemView> {
    s.map_values(|e: ElemInfo| e@)
}

/// Whether `sel` parses as a structural query. Names the success of
/// `scraper::Selector::parse`, which depends on the query text alone.
pub uninterp spec fn selector_valid(sel: Seq<char>) -> bool;

/// The elements that the query `sel` matches in the document `html`, in
/// document order. Names the result of `scraper::Html::select`, which
/// depends on the document and query texts alone.
pub uninterp spec fn matches_of(html: Seq<char>, sel: Seq<char>) -> Seq<ElemView>;

/// Relies on scraper: `Selector::parse` accepts or rejects the query by its
/// text alone, and `Html::parse_document` followed by `select` yields, in
/// document order, the elements matched in the parsed document. Each match
/// is handed out as its tag name, collected text, class attribute and outer
/// markup.
#[verifier::external_body]
pub(crate) fn select_in(html: &str, selector: &str) -> (r: Option<Vec<ElemInfo>>)
    ensures
        r is Some <==> selector_valid(selector@),
        r matches Some(es) ==> es@.len() == matches_of(html@, selector@).len() && forall|i: int|
            0 <= i < es@.len() ==> es@[i]@ == matches_of(html@, selector@)[i],
{
    let sel = match scraper::Selector::parse(selector) {
        Ok(s) => s,
        Err(_) => return None,
    };
    let doc = scraper::Html::parse_document(html);
    Some(doc.select(&sel).map(|e| ElemInfo {
        tag: e.value().name().to_string(),
        text: e.text().collect::<String>(),
        class_attr: e.value().attr("class").unwrap_or("").to_string(),
        html: e.html(),
    }).collect())
}

} // verus!
