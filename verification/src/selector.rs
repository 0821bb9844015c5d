//! The self-healing surface: synthesize structural queries that would
//! re-locate a confirmed text directly, and verify an arbitrary query
//! against a document.
use vstd::prelude::*;

use crate::candidate::RankedCandidate;
use crate::discover::DiscoveredFieldSet;
use crate::dom::{elem_views, matches_of, select_in, selector_valid, ElemInfo, ElemView};
use crate::text::{contains_substr, has_substr, prefix_before, split_before_char, str_eq,
    trim_spec, trim_str};
use crate::tree::key_views;

verus! {

/// A structural query with what verifying it against a document showed:
/// whether it parses, how many elements it matches, and up to five sample
/// matches.
pub struct SelectorDescriptor {
    pub query: String,
    pub is_valid: bool,
    pub match_count: usize,
    pub samples: Vec<ElemInfo>,
}

/// The mathematical content of a selector descriptor.
pub struct SelDescView {
    pub query: Seq<char>,
    pub is_valid: bool,
    pub match_count: int,
    pub samples: Seq<ElemView>,
}

impl View for SelectorDescriptor {
    type V = SelDescView;

    open spec fn view(&self) -> SelDescView {
        SelDescView {
            query: self.query@,
            is_valid: self.is_valid,
            match_count: self.match_count as int,
            samples: elem_views(self.samples@),
        }
    }
}

/// How many sample matches a descriptor carries at most.
pub open spec fn sample_cap() -> int {
    5
}

/// What verifying `q` against `html` reports: syntactic validity, the full
/// match count, and the first few matches as samples.
pub open spec fn verify_spec(html: Seq<char>, q: Seq<char>) -> SelDescView {
    if selector_valid(q) {
        let ms = matches_of(html, q);
        SelDescView {
            query: q,
            is_valid: true,
            match_count: ms.len() as int,
            samples: ms.subrange(
                0,
                if ms.len() < sample_cap() {
                    ms.len() as int
                } else {
                    sample_cap()
                },
            ),
        }
    } else {
        SelDescView { query: q, is_valid: false, match_count: 0, samples: Seq::empty() }
    }
}

impl ElemInfo {
    /// A copy with the same content.
    pub fn duplicate(&self) -> (r: ElemInfo)
        ensures
            r@ == self@,
    {
        ElemInfo {
            tag: self.tag.clone(),
            text: self.text.clone(),
            class_attr: self.class_attr.clone(),
            html: self.html.clone(),
        }
    }
}

/// Verify an arbitrary structural query against a document: report whether
/// it parses, how many elements it matches, and up to five samples. A
/// malformed query is reported, never fatal.
pub fn verify_selector(html: &str, query: &str) -> (r: SelectorDescriptor)
    ensures
        r@ == verify_spec(html@, query@),
{
    match select_in(html, query) {
        Some(ms) => {
            let cap: usize = if ms.len() < 5 {
                ms.len()
            } else {
                5
            };
            let mut samples: Vec<ElemInfo> = Vec::new();
            let mut i: usize = 0;
            while i < cap
                invariant
                    cap <= ms@.len(),
                    0 <= i <= cap,
                    samples@.len() == i,
                    forall|k: int| 0 <= k < i ==> samples@[k]@ == ms@[k]@,
                decreases cap - i,
            {
                samples.push(ms[i].duplicate());
                i = i + 1;
            }
            let r = SelectorDescriptor {
                query: String::from_str(query),
                is_valid: true,
                match_count: ms.len(),
                samples,
            };
            proof {
                assert(elem_views(r.samples@) =~= verify_spec(html@, query@).samples);
                assert(r@ == verify_spec(html@, query@));
            }
            r
        },
        None => {
            let r = SelectorDescriptor {
                query: String::from_str(query),
                is_valid: false,
                match_count: 0,
                samples: Vec::new(),
            };
            proof {
                assert(elem_views(r.samples@) =~= Seq::<ElemView>::empty());
            }
            r
        },
    }
}

/// The query synthesized from one element: anchored on the first fragment
/// of its class attribute when it has one, else its bare tag name.
pub open spec fn sel_for(e: ElemView) -> Seq<char> {
    if e.class_attr.len() > 0 {
        e.tag + "[class*='"@ + prefix_before(e.class_attr, ' ') + "']"@
    } else {
        e.tag
    }
}

/// Build the query synthesized from one element.
fn sel_for_exec(e: &ElemInfo) -> (r: String)
    ensures
        r@ == sel_for(e@),
{
    if e.class_attr.as_str().unicode_len() > 0 {
        let token = split_before_char(e.class_attr.as_str(), ' ');
        let r = e.tag.clone().concat("[class*='").concat(token.as_str()).concat("']");
        proof {
            assert(r@ =~= sel_for(e@));
        }
        r
    } else {
        e.tag.clone()
    }
}

/// One synthesis pass over the elements: on the exact pass, elements whose
/// trimmed text equals the target; on the loose pass, elements whose text
/// merely contains it.
pub open spec fn synth_pass(ms: Seq<ElemView>, target: Seq<char>, exact: bool) -> Seq<Seq<char>>
    decreases ms.len(),
{
    if ms.len() == 0 {
        Seq::empty()
    } else {
        let t = trim_spec(ms[0].text);
        let hit = if exact {
            t == target
        } else {
            t != target && has_substr(t, target)
        };
        (if hit {
            seq![sel_for(ms[0])]
        } else {
            Seq::<Seq<char>>::empty()
        }) + synth_pass(ms.drop_first(), target, exact)
    }
}

proof fn lemma_synth_pass_skip(ms: Seq<ElemView>, target: Seq<char>, exact: bool, i: int)
    requires
        0 <= i < ms.len(),
    ensures
        synth_pass(ms.skip(i), target, exact) == (if (if exact {
            trim_spec(ms[i].text) == target
        } else {
            trim_spec(ms[i].text) != target && has_substr(trim_spec(ms[i].text), target)
        }) {
            seq![sel_for(ms[i])]
        } else {
            Seq::<Seq<char>>::empty()
        }) + synth_pass(ms.skip(i + 1), target, exact),
{
    assert(ms.skip(i)[0] == ms[i]);
    assert(ms.skip(i).drop_first() =~= ms.skip(i + 1));
}

/// The queries synthesized for a target text, most specific first: exact
/// text matches before loose ones, each anchored on a class fragment when
/// the element has one.
pub open spec fn synthesize_spec(html: Seq<char>, target: Seq<char>) -> Seq<Seq<char>> {
    if !selector_valid("*"@) {
        Seq::empty()
    } else {
        let ms = matches_of(html, "*"@);
        synth_pass(ms, target, true) + synth_pass(ms, target, false)
    }
}

/// Run one synthesis pass over the elements.
fn synth_pass_exec(ms: &Vec<ElemInfo>, target: &str, exact: bool, out: &mut Vec<String>)
    ensures
        key_views(final(out)@) == key_views(old(out)@) + synth_pass(
            elem_views(ms@),
            target@,
            exact,
        ),
{
    let ghost mv = elem_views(ms@);
    let ghost out0 = out@;
    let ghost full = synth_pass(mv, target@, exact);
    proof {
        assert(mv.skip(0) =~= mv);
        assert(key_views(out@) =~= key_views(out0) + full.subrange(0, 0));
    }
    let mut i: usize = 0;
    while i < ms.len()
        invariant
            mv == elem_views(ms@),
            mv.len() == ms@.len(),
            forall|k: int| 0 <= k < mv.len() ==> mv[k] == ms@[k]@,
            full == synth_pass(mv, target@, exact),
            0 <= i <= ms@.len(),
            out@.len() >= out0.len(),
            out@.len() - out0.len() <= full.len(),
            key_views(out@) == key_views(out0) + full.subrange(0, out@.len() - out0.len()),
            full == full.subrange(0, out@.len() - out0.len()) + synth_pass(
                mv.skip(i as int),
                target@,
                exact,
            ),
        decreases ms@.len() - i,
    {
        proof {
            lemma_synth_pass_skip(mv, target@, exact, i as int);
        }
        let t = trim_str(ms[i].text.as_str());
        let hit: bool = if exact {
            str_eq(t.as_str(), target)
        } else {
            !str_eq(t.as_str(), target) && contains_substr(t.as_str(), target)
        };
        let ghost old_out = out@;
        let ghost part = synth_pass(mv.skip(i as int), target@, exact);
        let ghost off = old_out.len() - out0.len();
        if hit {
            out.push(sel_for_exec(&ms[i]));
            proof {
                assert(part =~= seq![sel_for(mv[i as int])] + synth_pass(
                    mv.skip(i as int + 1),
                    target@,
                    exact,
                ));
                assert(full == full.subrange(0, off) + part);
                assert(full.subrange(0, off + 1) =~= full.subrange(0, off) + seq![full[off]]);
                assert(full[off] == part[0]);
                assert(out@[out@.len() - 1]@ == full[off]);
            }
        } else {
            proof {
                assert(part =~= synth_pass(mv.skip(i as int + 1), target@, exact));
            }
        }
        proof {
            assert forall|k: int| 0 <= k < old_out.len() implies out@[k] == old_out[k] by {}
            assert(key_views(out0).len() == out0.len());
            assert forall|k: int|
                0 <= k < out@.len() implies key_views(out@)[k] == (key_views(out0)
                + full.subrange(0, out@.len() - out0.len()))[k] by {
                assert(key_views(out@)[k] == out@[k]@);
                if k < old_out.len() {
                    assert(key_views(old_out)[k] == old_out[k]@);
                    assert(key_views(old_out)[k] == (key_views(out0) + full.subrange(
                        0,
                        off,
                    ))[k]);
                    if k >= out0.len() {
                        assert(full.subrange(0, out@.len() - out0.len())[k - out0.len()]
                            == full[k - out0.len()]);
                        assert(full.subrange(0, off)[k - out0.len()] == full[k - out0.len()]);
                    }
                } else {
                    assert(out@[k]@ == full[off]);
                    assert(full.subrange(0, out@.len() - out0.len())[k - out0.len()] == full[k
                        - out0.len()]);
                }
            }
            assert(key_views(out@) =~= key_views(out0) + full.subrange(
                0,
                out@.len() - out0.len(),
            ));
            assert(full =~= full.subrange(0, out@.len() - out0.len()) + synth_pass(
                mv.skip(i as int + 1),
                target@,
                exact,
            ));
        }
        i = i + 1;
    }
    proof {
        assert(mv.skip(ms@.len() as int) =~= Seq::<ElemView>::empty());
        assert(full =~= full.subrange(0, out@.len() - out0.len()));
        assert(key_views(out@) =~= key_views(out0) + full);
    }
}

/// Synthesize structural queries that would re-locate the target text in
/// the document, most specific first. An empty list means no
/// discriminating query was found; that is not an error.
pub fn generate_selector_candidates(html: &str, target: &str) -> (r: Vec<String>)
    ensures
        key_views(r@) == synthesize_spec(html@, target@),
{
    let mut out: Vec<String> = Vec::new();
    match select_in(html, "*") {
        Some(ms) => {
            proof {
                assert(elem_views(ms@) =~= matches_of(html@, "*"@));
                assert(key_views(out@) =~= Seq::<Seq<char>>::empty());
            }
            synth_pass_exec(&ms, target, true, &mut out);
            synth_pass_exec(&ms, target, false, &mut out);
            proof {
                assert(key_views(out@) =~= synthesize_spec(html@, target@));
            }
        },
        None => {
            proof {
                assert(key_views(out@) =~= synthesize_spec(html@, target@));
            }
        },
    }
    out
}

/// Synthesize queries for the target text and verify each against the same
/// document, in synthesis order.
pub fn synthesize_selector(html: &str, target: &str) -> (r: Vec<SelectorDescriptor>)
    ensures
        r@.len() == synthesize_spec(html@, target@).len(),
        forall|i: int|
            0 <= i < r@.len() ==> r@[i]@ == verify_spec(html@, synthesize_spec(html@, target@)[i]),
{
    let ghost qs = synthesize_spec(html@, target@);
    let queries = generate_selector_candidates(html, target);
    let mut out: Vec<SelectorDescriptor> = Vec::new();
    let mut i: usize = 0;
    while i < queries.len()
        invariant
            qs == synthesize_spec(html@, target@),
            key_views(queries@) == qs,
            qs.len() == queries@.len(),
            forall|k: int| 0 <= k < qs.len() ==> qs[k] == queries@[k]@,
            0 <= i <= queries@.len(),
            out@.len() == i,
            forall|k: int| 0 <= k < i ==> out@[k]@ == verify_spec(html@, qs[k]),
        decreases queries@.len() - i,
    {
        out.push(verify_selector(html, queries[i].as_str()));
        i = i + 1;
    }
    out
}

/// The flat record of chosen values: the top-ranked candidate of each
/// field, empty where a field has no candidate.
pub struct StockData {
    pub name: String,
    pub code: String,
    pub price: String,
    pub change_abs: String,
    pub change_pct: String,
    pub update_time: String,
}

/// The top candidate's text, or empty.
pub open spec fn top_or_empty(s: Seq<RankedCandidate>) -> Seq<char> {
    if s.len() > 0 {
        s[0]@.text
    } else {
        Seq::empty()
    }
}

/// The top candidate's text, or an empty string.
fn top_text_or_empty(s: &Vec<RankedCandidate>) -> (r: String)
    ensures
        r@ == top_or_empty(s@),
{
    if s.len() > 0 {
        s[0].text.clone()
    } else {
        String::new()
    }
}

/// Flatten a discovery attempt into the chosen values, one per field.
pub fn stock_data_from(d: &DiscoveredFieldSet, code: &str) -> (r: StockData)
    ensures
        r.code@ == code@,
        r.name@ == top_or_empty(d.name_candidates@),
        r.price@ == top_or_empty(d.price_candidates@),
        r.change_abs@ == top_or_empty(d.change_abs_candidates@),
        r.change_pct@ == top_or_empty(d.change_pct_candidates@),
        r.update_time@ == top_or_empty(d.update_time_candidates@),
{
    StockData {
        name: top_text_or_empty(&d.name_candidates),
        code: String::from_str(code),
        price: top_text_or_empty(&d.price_candidates),
        change_abs: top_text_or_empty(&d.change_abs_candidates),
        change_pct: top_text_or_empty(&d.change_pct_candidates),
        update_time: top_text_or_empty(&d.update_time_candidates),
    }
}

} // verus!
