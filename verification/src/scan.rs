//! The heuristic candidate scanner: ordered structural query patterns are
//! run over the page, each matched element's trimmed text is validated by a
//! per-field predicate, and every accepted text becomes a scored candidate.
use vstd::prelude::*;

use crate::candidate::{CandView, RankedCandidate};
use crate::dom::{elem_views, matches_of, select_in, selector_valid, ElemInfo, ElemView};
use crate::text::{
    contains_char, contains_digit, contains_substr, has_char, has_digit, has_substr, is_ws,
    num_body, num_body_text, price_shape, price_text, signed_num_shape, signed_num_text,
    trim_spec, trim_str,
};

verus! {

/// The validation rule a candidate text must pass for one field.
#[derive(Clone, Copy, Debug, PartialEq, Eq, Structural)]
pub enum FieldKind {
    /// Any non-empty trimmed text: names and update times.
    NonEmpty,
    /// A non-negative decimal with grouping separators, optional plus sign.
    Price,
    /// A bare decimal with grouping separators: no sign, no percent.
    PriceBare,
    /// A decimal with grouping separators and an optional sign.
    SignedNum,
    /// Signed and carrying at least one digit: absolute change.
    ChangeAbs,
    /// Carrying a percent sign and an opening parenthesis.
    ChangePctStrict,
    /// Carrying a percent sign, plus a sign or a digit.
    ChangePctLoose,
    /// Starting with a sign.
    SignLead,
    /// Starting with a sign and carrying a percent sign.
    SignLeadPct,
    /// Starting with a sign and free of percent signs.
    SignLeadNoPct,
}

/// The text starts with an explicit sign.
pub open spec fn sign_lead(t: Seq<char>) -> bool {
    t.len() > 0 && (t[0] == '+' || t[0] == '-')
}

/// Whether the trimmed text `t` is a plausible value for a field validated
/// by `kind`.
pub open spec fn accepts(kind: FieldKind, t: Seq<char>) -> bool {
    match kind {
        FieldKind::NonEmpty => t.len() > 0,
        FieldKind::Price => price_shape(t),
        FieldKind::PriceBare => num_body(t),
        FieldKind::SignedNum => signed_num_shape(t),
        FieldKind::ChangeAbs => sign_lead(t) && has_digit(t),
        FieldKind::ChangePctStrict => has_char(t, '%') && has_char(t, '('),
        FieldKind::ChangePctLoose => has_char(t, '%') && (sign_lead(t) || has_digit(t)),
        FieldKind::SignLead => sign_lead(t),
        FieldKind::SignLeadPct => sign_lead(t) && has_char(t, '%'),
        FieldKind::SignLeadNoPct => sign_lead(t) && !has_char(t, '%'),
    }
}

/// Executable test for `sign_lead`.
fn sign_lead_exec(t: &str) -> (r: bool)
    ensures
        r == sign_lead(t@),
{
    if t.unicode_len() == 0 {
        false
    } else {
        let c: char = t.get_char(0);
        c == '+' || c == '-'
    }
}

/// Executable test for `accepts`.
pub fn accepts_exec(kind: FieldKind, t: &str) -> (r: bool)
    ensures
        r == accepts(kind, t@),
{
    match kind {
        FieldKind::NonEmpty => t.unicode_len() > 0,
        FieldKind::Price => price_text(t),
        FieldKind::PriceBare => num_body_text(t),
        FieldKind::SignedNum => signed_num_text(t),
        FieldKind::ChangeAbs => sign_lead_exec(t) && contains_digit(t),
        FieldKind::ChangePctStrict => contains_char(t, '%') && contains_char(t, '('),
        FieldKind::ChangePctLoose => contains_char(t, '%') && (sign_lead_exec(t)
            || contains_digit(t)),
        FieldKind::SignLead => sign_lead_exec(t),
        FieldKind::SignLeadPct => sign_lead_exec(t) && contains_char(t, '%'),
        FieldKind::SignLeadNoPct => sign_lead_exec(t) && !contains_char(t, '%'),
    }
}

/// One structural query pattern with its base confidence and whether
/// attribute hints adjust the score.
pub struct Pattern {
    pub query: String,
    pub base_score: u32,
    pub hints: bool,
}

/// The mathematical content of a pattern.
pub struct PatternView {
    pub query: Seq<char>,
    pub base_score: u32,
    pub hints: bool,
}

impl View for Pattern {
    type V = PatternView;

    open spec fn view(&self) -> PatternView {
        PatternView { query: self.query@, base_score: self.base_score, hints: self.hints }
    }
}

/// The views of a pattern table.
pub open spec fn pattern_views(s: Seq<Pattern>) -> Seq<PatternView> {
    s.map_values(|p: Pattern| p@)
}

/// Clip an integer into the `u32` range.
pub open spec fn clip_u32(x: int) -> u32 {
    if x < 0 {
        0u32
    } else if x > 0xffff_ffff {
        0xffff_ffffu32
    } else {
        x as u32
    }
}

/// The score an accepted element earns: the pattern's base weight and, for
/// hint-scored patterns, a bonus for a grouping separator in the text and
/// for class names that affirm a value field, and a penalty for class names
/// that suggest a code label instead.
pub open spec fn hint_score(base: u32, hints: bool, t: Seq<char>, class_attr: Seq<char>) -> u32 {
    if hints {
        clip_u32(
            base + (if has_char(t, ',') {
                30int
            } else {
                0int
            }) + (if has_substr(class_attr, "value"@) {
                20int
            } else {
                0int
            }) + (if has_substr(class_attr, "large"@) {
                10int
            } else {
                0int
            }) - (if has_substr(class_attr, "code"@) || has_substr(class_attr, "symbol"@) {
                40int
            } else {
                0int
            }),
        )
    } else {
        base
    }
}

/// Executable rendering of `hint_score`.
fn hint_score_exec(base: u32, hints: bool, t: &str, class_attr: &str) -> (r: u32)
    ensures
        r == hint_score(base, hints, t@, class_attr@),
{
    if !hints {
        return base;
    }
    let mut s: i64 = base as i64;
    if contains_char(t, ',') {
        s = s + 30;
    }
    if contains_substr(class_attr, "value") {
        s = s + 20;
    }
    if contains_substr(class_attr, "large") {
        s = s + 10;
    }
    if contains_substr(class_attr, "code") || contains_substr(class_attr, "symbol") {
        s = s - 40;
    }
    if s < 0 {
        0
    } else if s > 0xffff_ffff {
        0xffff_ffffu32
    } else {
        s as u32
    }
}

/// The provenance note for a pattern hit.
pub open spec fn pattern_reason(query: Seq<char>) -> Seq<char> {
    "selector: "@ + query
}

/// Build the provenance note for a pattern hit.
fn pattern_reason_exec(query: &str) -> (r: String)
    ensures
        r@ == pattern_reason(query@),
{
    String::from_str("selector: ").concat(query)
}

/// The candidates one pattern's matches yield: each element whose trimmed
/// text passes the field's predicate, scored by the pattern's weight and
/// the element's attribute hints.
pub open spec fn sieve(
    kind: FieldKind,
    ms: Seq<ElemView>,
    base: u32,
    hints: bool,
    query: Seq<char>,
) -> Seq<CandView>
    decreases ms.len(),
{
    if ms.len() == 0 {
        Seq::empty()
    } else {
        let t = trim_spec(ms[0].text);
        let rest = sieve(kind, ms.drop_first(), base, hints, query);
        if accepts(kind, t) {
            seq![
                CandView {
                    text: t,
                    score: hint_score(base, hints, t, ms[0].class_attr),
                    reason: pattern_reason(query),
                },
            ] + rest
        } else {
            rest
        }
    }
}

proof fn lemma_sieve_skip(
    kind: FieldKind,
    ms: Seq<ElemView>,
    base: u32,
    hints: bool,
    query: Seq<char>,
    i: int,
)
    requires
        0 <= i < ms.len(),
    ensures
        sieve(kind, ms.skip(i), base, hints, query) == (if accepts(
            kind,
            trim_spec(ms[i].text),
        ) {
            seq![
                CandView {
                    text: trim_spec(ms[i].text),
                    score: hint_score(base, hints, trim_spec(ms[i].text), ms[i].class_attr),
                    reason: pattern_reason(query),
                },
            ]
        } else {
            Seq::<CandView>::empty()
        }) + sieve(kind, ms.skip(i + 1), base, hints, query),
{
    assert(ms.skip(i)[0] == ms[i]);
    assert(ms.skip(i).drop_first() =~= ms.skip(i + 1));
    if !accepts(kind, trim_spec(ms[i].text)) {
        assert(sieve(kind, ms.skip(i), base, hints, query) =~= Seq::<CandView>::empty() + sieve(
            kind,
            ms.skip(i + 1),
            base,
            hints,
            query,
        ));
    }
}

/// Run one pattern's matches through the field predicate.
fn sieve_exec(
    kind: FieldKind,
    ms: &Vec<ElemInfo>,
    base: u32,
    hints: bool,
    query: &str,
    out: &mut Vec<RankedCandidate>,
)
    ensures
        final(out)@.len() == old(out)@.len() + sieve(
            kind,
            elem_views(ms@),
            base,
            hints,
            query@,
        ).len(),
        forall|k: int| 0 <= k < old(out)@.len() ==> final(out)@[k] == old(out)@[k],
        forall|k: int|
            old(out)@.len() <= k < final(out)@.len() ==> final(out)@[k]@ == sieve(
                kind,
                elem_views(ms@),
                base,
                hints,
                query@,
            )[k - old(out)@.len()],
{
    let ghost mv = elem_views(ms@);
    let ghost out0 = out@;
    proof {
        assert(mv.skip(0) =~= mv);
    }
    let mut i: usize = 0;
    while i < ms.len()
        invariant
            mv == elem_views(ms@),
            mv.len() == ms@.len(),
            forall|k: int| 0 <= k < mv.len() ==> mv[k] == ms@[k]@,
            0 <= i <= ms@.len(),
            out@.len() + sieve(kind, mv.skip(i as int), base, hints, query@).len() == out0.len()
                + sieve(kind, mv, base, hints, query@).len(),
            out@.len() >= out0.len(),
            forall|k: int| 0 <= k < out0.len() ==> out@[k] == out0[k],
            forall|k: int|
                out0.len() <= k < out@.len() ==> out@[k]@ == sieve(
                    kind,
                    mv,
                    base,
                    hints,
                    query@,
                )[k - out0.len()],
            sieve(kind, mv, base, hints, query@) == sieve(
                kind,
                mv,
                base,
                hints,
                query@,
            ).subrange(0, out@.len() - out0.len()) + sieve(
                kind,
                mv.skip(i as int),
                base,
                hints,
                query@,
            ),
        decreases ms@.len() - i,
    {
        proof {
            lemma_sieve_skip(kind, mv, base, hints, query@, i as int);
        }
        let t = trim_str(ms[i].text.as_str());
        if accepts_exec(kind, t.as_str()) {
            let score = hint_score_exec(base, hints, t.as_str(), ms[i].class_attr.as_str());
            let reason = pattern_reason_exec(query);
            let ghost old_out = out@;
            out.push(RankedCandidate { text: t, score, reason });
            proof {
                let full = sieve(kind, mv, base, hints, query@);
                assert(out@[out@.len() - 1]@ == full[out@.len() - 1 - out0.len()]) by {
                    assert(full.subrange(0, old_out.len() - out0.len() + 1) =~= full.subrange(
                        0,
                        old_out.len() - out0.len(),
                    ) + seq![full[old_out.len() - out0.len()]]);
                    assert(full == full.subrange(0, old_out.len() - out0.len()) + (seq![
                        CandView {
                            text: trim_spec(mv[i as int].text),
                            score: hint_score(
                                base,
                                hints,
                                trim_spec(mv[i as int].text),
                                mv[i as int].class_attr,
                            ),
                            reason: pattern_reason(query@),
                        },
                    ] + sieve(kind, mv.skip(i as int + 1), base, hints, query@)));
                    assert(full[old_out.len() - out0.len()] == CandView {
                        text: trim_spec(mv[i as int].text),
                        score: hint_score(
                            base,
                            hints,
                            trim_spec(mv[i as int].text),
                            mv[i as int].class_attr,
                        ),
                        reason: pattern_reason(query@),
                    });
                }
                assert(full =~= full.subrange(0, out@.len() - out0.len()) + sieve(
                    kind,
                    mv.skip(i as int + 1),
                    base,
                    hints,
                    query@,
                ));
            }
        } else {
            proof {
                let full = sieve(kind, mv, base, hints, query@);
                assert(full =~= full.subrange(0, out@.len() - out0.len()) + sieve(
                    kind,
                    mv.skip(i as int + 1),
                    base,
                    hints,
                    query@,
                ));
            }
        }
        i = i + 1;
    }
    proof {
        assert(mv.skip(ms@.len() as int) =~= Seq::<ElemView>::empty());
    }
}

/// The candidates a whole pattern table yields, in table order. A query
/// that does not parse yields nothing.
pub open spec fn scan_spec(html: Seq<char>, ps: Seq<PatternView>, kind: FieldKind) -> Seq<
    CandView,
>
    decreases ps.len(),
{
    if ps.len() == 0 {
        Seq::empty()
    } else {
        (if selector_valid(ps[0].query) {
            sieve(kind, matches_of(html, ps[0].query), ps[0].base_score, ps[0].hints, ps[0].query)
        } else {
            Seq::<CandView>::empty()
        }) + scan_spec(html, ps.drop_first(), kind)
    }
}

proof fn lemma_scan_skip(html: Seq<char>, ps: Seq<PatternView>, kind: FieldKind, i: int)
    requires
        0 <= i < ps.len(),
    ensures
        scan_spec(html, ps.skip(i), kind) == (if selector_valid(ps[i].query) {
            sieve(kind, matches_of(html, ps[i].query), ps[i].base_score, ps[i].hints, ps[i].query)
        } else {
            Seq::<CandView>::empty()
        }) + scan_spec(html, ps.skip(i + 1), kind),
{
    assert(ps.skip(i)[0] == ps[i]);
    assert(ps.skip(i).drop_first() =~= ps.skip(i + 1));
}

/// Run an ordered pattern table over the page for one field, collecting the
/// candidates of every pattern in table order.
pub fn scan_patterns(html: &str, patterns: &Vec<Pattern>, kind: FieldKind) -> (r: Vec<
    RankedCandidate,
>)
    ensures
        r@.len() == scan_spec(html@, pattern_views(patterns@), kind).len(),
        forall|k: int|
            0 <= k < r@.len() ==> r@[k]@ == scan_spec(html@, pattern_views(patterns@), kind)[k],
{
    let ghost pv = pattern_views(patterns@);
    let ghost full = scan_spec(html@, pv, kind);
    let mut out: Vec<RankedCandidate> = Vec::new();
    proof {
        assert(pv.skip(0) =~= pv);
        assert(full.subrange(0, 0) =~= Seq::<CandView>::empty());
        assert(full =~= full.subrange(0, 0) + scan_spec(html@, pv.skip(0), kind));
    }
    let mut i: usize = 0;
    while i < patterns.len()
        invariant
            pv == pattern_views(patterns@),
            full == scan_spec(html@, pv, kind),
            pv.len() == patterns@.len(),
            forall|k: int| 0 <= k < pv.len() ==> pv[k] == patterns@[k]@,
            0 <= i <= patterns@.len(),
            out@.len() <= full.len(),
            forall|k: int| 0 <= k < out@.len() ==> out@[k]@ == full[k],
            full == full.subrange(0, out@.len() as int) + scan_spec(
                html@,
                pv.skip(i as int),
                kind,
            ),
        decreases patterns@.len() - i,
    {
        proof {
            lemma_scan_skip(html@, pv, kind, i as int);
        }
        match select_in(html, patterns[i].query.as_str()) {
            Some(ms) => {
                let ghost old_out = out@;
                proof {
                    assert(elem_views(ms@) =~= matches_of(html@, pv[i as int].query));
                }
                sieve_exec(
                    kind,
                    &ms,
                    patterns[i].base_score,
                    patterns[i].hints,
                    patterns[i].query.as_str(),
                    &mut out,
                );
                proof {
                    let part = sieve(
                        kind,
                        matches_of(html@, pv[i as int].query),
                        pv[i as int].base_score,
                        pv[i as int].hints,
                        pv[i as int].query,
                    );
                    assert(sieve(
                        kind,
                        elem_views(ms@),
                        patterns@[i as int]@.base_score,
                        patterns@[i as int]@.hints,
                        (patterns@[i as int].query)@,
                    ) == part);
                    assert forall|k: int| 0 <= k < out@.len() implies out@[k]@ == full[k] by {
                        if k >= old_out.len() {
                            assert(out@[k]@ == part[k - old_out.len()]);
                            assert(full == full.subrange(0, old_out.len() as int) + (part
                                + scan_spec(html@, pv.skip(i as int + 1), kind)));
                            assert(full[k] == part[k - old_out.len()]);
                        }
                    }
                    assert(full =~= full.subrange(0, out@.len() as int) + scan_spec(
                        html@,
                        pv.skip(i as int + 1),
                        kind,
                    ));
                }
            },
            None => {
                proof {
                    assert(full =~= full.subrange(0, out@.len() as int) + scan_spec(
                        html@,
                        pv.skip(i as int + 1),
                        kind,
                    ));
                }
            },
        }
        i = i + 1;
    }
    proof {
        assert(pv.skip(patterns@.len() as int) =~= Seq::<PatternView>::empty());
        assert(full =~= full.subrange(0, out@.len() as int));
    }
    out
}

} // verus!
