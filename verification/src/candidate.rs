//! Ranked candidates and the deduplicate-and-sort pass over them: for each
//! distinct text keep the best-scoring entry, then order by descending score
//! with ties broken by ascending text.
use vstd::prelude::*;

use crate::text::{lemma_lex_asym, lemma_lex_total, lemma_lex_trans, lex_lt, str_eq, str_lex_lt};

verus! {

/// One plausible value for a field, with a confidence score and a
/// human-readable provenance note.
pub struct RankedCandidate {
    pub text: String,
    pub score: u32,
    pub reason: String,
}

/// The mathematical content of a candidate.
pub struct CandView {
    pub text: Seq<char>,
    pub score: u32,
    pub reason: Seq<char>,
}

impl View for RankedCandidate {
    type V = CandView;

    open spec fn view(&self) -> CandView {
        CandView { text: self.text@, score: self.score, reason: self.reason@ }
    }
}

impl RankedCandidate {
    /// Build a candidate from its parts.
    pub fn new(text: String, score: u32, reason: String) -> (r: RankedCandidate)
        ensures
            r@.text == text@,
            r@.score == score,
            r@.reason == reason@,
    {
        RankedCandidate { text, score, reason }
    }

    /// A copy with the same content.
    pub fn duplicate(&self) -> (r: RankedCandidate)
        ensures
            r@ == self@,
    {
        RankedCandidate { text: self.text.clone(), score: self.score, reason: self.reason.clone() }
    }
}

/// The views of a sequence of candidates.
pub open spec fn cand_views(s: Seq<RankedCandidate>) -> Seq<CandView> {
    s.map_values(|c: RankedCandidate| c@)
}

/// `a` strictly precedes `b` in ranked order: higher score first, ties by
/// ascending text.
pub open spec fn rank_before(a: CandView, b: CandView) -> bool {
    a.score > b.score || (a.score == b.score && lex_lt(a.text, b.text))
}

/// Every pair of positions in `s` is strictly ordered.
pub open spec fn ranked_seq(s: Seq<RankedCandidate>) -> bool {
    forall|i: int, j: int|
        #![trigger s[i], s[j]]
        0 <= i < j < s.len() ==> rank_before(s[i]@, s[j]@)
}

/// No two positions of `s` carry the same text.
pub open spec fn distinct_texts(s: Seq<RankedCandidate>) -> bool {
    forall|i: int, j: int|
        #![trigger s[i], s[j]]
        0 <= i < j < s.len() ==> s[i]@.text != s[j]@.text
}

/// Position `k` of `cs` holds the first candidate that reaches the maximal
/// score among all candidates sharing its text.
pub open spec fn first_best(cs: Seq<RankedCandidate>, k: int) -> bool {
    &&& 0 <= k < cs.len()
    &&& forall|m: int|
        #![trigger cs[m]]
        0 <= m < cs.len() && cs[m]@.text == cs[k]@.text ==> cs[m]@.score <= cs[k]@.score
    &&& forall|m: int|
        #![trigger cs[m]]
        0 <= m < k && cs[m]@.text == cs[k]@.text ==> cs[m]@.score < cs[k]@.score
}

/// Like `first_best` but judged against only the first `hi` candidates.
pub open spec fn first_best_upto(cs: Seq<RankedCandidate>, hi: int, k: int) -> bool {
    &&& 0 <= k < hi <= cs.len()
    &&& forall|m: int|
        #![trigger cs[m]]
        0 <= m < hi && cs[m]@.text == cs[k]@.text ==> cs[m]@.score <= cs[k]@.score
    &&& forall|m: int|
        #![trigger cs[m]]
        0 <= m < k && cs[m]@.text == cs[k]@.text ==> cs[m]@.score < cs[k]@.score
}

/// `x` is the view of a first-best candidate of `cs`.
pub open spec fn rep_of(cs: Seq<RankedCandidate>, x: CandView) -> bool {
    exists|k: int| first_best(cs, k) && x == cs[k]@
}

/// Like `rep_of`, judged against the first `hi` candidates only.
pub open spec fn rep_upto(cs: Seq<RankedCandidate>, hi: int, x: CandView) -> bool {
    exists|k: int| first_best_upto(cs, hi, k) && x == cs[k]@
}

/// Some position of `s` carries the text `t`.
pub open spec fn text_in(s: Seq<RankedCandidate>, t: Seq<char>) -> bool {
    exists|i: int| 0 <= i < s.len() && s[i]@.text == t
}

/// Some position of `s` has the view `x`.
pub open spec fn view_in(s: Seq<RankedCandidate>, x: CandView) -> bool {
    exists|i: int| 0 <= i < s.len() && s[i]@ == x
}

/// Some position of `s` before `hi` has the view `x`.
pub open spec fn view_in_upto(s: Seq<RankedCandidate>, hi: int, x: CandView) -> bool {
    exists|i: int| 0 <= i < hi <= s.len() && s[i]@ == x
}

/// `d` holds one best representative for each text of `cs`, in some order.
pub open spec fn dedup_pool(cs: Seq<RankedCandidate>, d: Seq<RankedCandidate>) -> bool {
    &&& distinct_texts(d)
    &&& forall|i: int| #![trigger d[i]] 0 <= i < d.len() ==> rep_of(cs, d[i]@)
    &&& forall|k: int| #![trigger cs[k]] 0 <= k < cs.len() ==> text_in(d, cs[k]@.text)
}

/// `r` holds exactly the element views of `d`, in ranked order.
pub open spec fn sorted_pool(d: Seq<RankedCandidate>, r: Seq<RankedCandidate>) -> bool {
    &&& ranked_seq(r)
    &&& distinct_texts(r)
    &&& r.len() == d.len()
    &&& forall|i: int| #![trigger r[i]] 0 <= i < r.len() ==> view_in(d, r[i]@)
    &&& forall|j: int| #![trigger d[j]] 0 <= j < d.len() ==> view_in(r, d[j]@)
}

/// The result `r` is exactly the deduplicated, ranked rendering of `cs`:
/// ranked strictly, no text twice, every entry a first-best representative
/// of `cs`, and every first-best representative of `cs` present.
pub open spec fn dedup_ranked(cs: Seq<RankedCandidate>, r: Seq<RankedCandidate>) -> bool {
    &&& ranked_seq(r)
    &&& distinct_texts(r)
    &&& forall|i: int| #![trigger r[i]] 0 <= i < r.len() ==> rep_of(cs, r[i]@)
    &&& forall|k: int| #![trigger cs[k]] first_best(cs, k) ==> view_in(r, cs[k]@)
}

/// Two candidates with different texts are comparable one way or the other.
pub proof fn lemma_rank_total(a: CandView, b: CandView)
    requires
        a.text != b.text,
    ensures
        rank_before(a, b) || rank_before(b, a),
{
    lemma_lex_total(a.text, b.text);
}

/// Ranked order is transitive.
pub proof fn lemma_rank_trans(a: CandView, b: CandView, c: CandView)
    requires
        rank_before(a, b),
        rank_before(b, c),
    ensures
        rank_before(a, c),
{
    if a.score == b.score && b.score == c.score {
        lemma_lex_trans(a.text, b.text, c.text);
    }
}

/// Ranked order never holds both ways.
pub proof fn lemma_rank_asym(a: CandView, b: CandView)
    requires
        rank_before(a, b),
    ensures
        !rank_before(b, a),
{
    lemma_lex_asym(a.text, b.text);
    lemma_lex_asym(b.text, a.text);
}

/// First index in `v` whose text equals `t`, if any.
fn find_by_text(v: &Vec<RankedCandidate>, t: &str) -> (r: Option<usize>)
    ensures
        match r {
            Some(j) => 0 <= j < v@.len() && v@[j as int]@.text == t@,
            None => forall|j: int| #![trigger v@[j]] 0 <= j < v@.len() ==> v@[j]@.text != t@,
        },
{
    let mut j: usize = 0;
    while j < v.len()
        invariant
            0 <= j <= v@.len(),
            forall|i: int| #![trigger v@[i]] 0 <= i < j ==> v@[i]@.text != t@,
        decreases v@.len() - j,
    {
        if str_eq(v[j].text.as_str(), t) {
            return Some(j);
        }
        j = j + 1;
    }
    None
}

/// Executable test for `rank_before`.
fn rank_before_exec(a: &RankedCandidate, b: &RankedCandidate) -> (r: bool)
    ensures
        r == rank_before(a@, b@),
{
    a.score > b.score || (a.score == b.score && str_lex_lt(a.text.as_str(), b.text.as_str()))
}

/// Keep, for each distinct text, the first entry that reaches the maximal
/// score for that text.
fn dedup_candidates(candidates: &Vec<RankedCandidate>) -> (r: Vec<RankedCandidate>)
    ensures
        dedup_pool(candidates@, r@),
{
    let ghost cs = candidates@;
    let mut ded: Vec<RankedCandidate> = Vec::new();
    let mut idx: usize = 0;
    while idx < candidates.len()
        invariant
            cs == candidates@,
            0 <= idx <= cs.len(),
            distinct_texts(ded@),
            forall|i: int|
                #![trigger ded@[i]]
                0 <= i < ded@.len() ==> rep_upto(cs, idx as int, ded@[i]@),
            forall|k: int| #![trigger cs[k]] 0 <= k < idx ==> text_in(ded@, cs[k]@.text),
        decreases cs.len() - idx,
    {
        let ghost idxi = idx as int;
        let c = candidates[idx].duplicate();
        let ghost cc = c;
        proof {
            assert(cc@ == cs[idxi]@);
        }
        match find_by_text(&ded, c.text.as_str()) {
            Some(j) => {
                let ghost old_ded = ded@;
                let ghost ji = j as int;
                let ghost kj = choose|k: int|
                    first_best_upto(cs, idxi, k) && old_ded[ji]@ == cs[k]@;
                proof {
                    assert(rep_upto(cs, idxi, old_ded[ji]@));
                    assert(first_best_upto(cs, idxi, kj) && old_ded[ji]@ == cs[kj]@);
                    assert(cs[kj]@.text == cs[idxi]@.text);
                }
                if c.score > ded[j].score {
                    let _ = ded.remove(j);
                    ded.insert(j, c);
                    proof {
                        assert(ded@ =~= old_ded.update(ji, cc));
                        assert(first_best_upto(cs, idxi + 1, idxi));
                        assert forall|i1: int, j1: int|
                            0 <= i1 < j1 < ded@.len() implies ded@[i1]@.text
                            != ded@[j1]@.text by {
                            assert(old_ded[i1]@.text != old_ded[j1]@.text);
                            assert(cc@.text == old_ded[ji]@.text);
                        }
                        assert forall|i: int| #![trigger ded@[i]] 0 <= i
                            < ded@.len() implies rep_upto(cs, idxi + 1, ded@[i]@) by {
                            if i == ji {
                                assert(ded@[i]@ == cs[idxi]@);
                                assert(rep_upto(cs, idxi + 1, ded@[i]@));
                            } else {
                                assert(rep_upto(cs, idxi, old_ded[i]@));
                                let k0 = choose|k: int|
                                    first_best_upto(cs, idxi, k) && old_ded[i]@ == cs[k]@;
                                assert(ded@[i]@ == old_ded[i]@);
                                assert(old_ded[i]@.text != old_ded[ji]@.text);
                                assert(cs[k0]@.text != cs[idxi]@.text);
                                assert(first_best_upto(cs, idxi + 1, k0));
                                assert(rep_upto(cs, idxi + 1, ded@[i]@));
                            }
                        }
                        assert forall|k: int| #![trigger cs[k]] 0 <= k
                            < idxi + 1 implies text_in(ded@, cs[k]@.text) by {
                            if k < idxi {
                                assert(text_in(old_ded, cs[k]@.text));
                                let i0 = choose|i: int|
                                    0 <= i < old_ded.len() && old_ded[i]@.text == cs[k]@.text;
                                assert(ded@[i0]@.text == old_ded[i0]@.text);
                            } else {
                                assert(ded@[ji]@.text == cs[idxi]@.text);
                            }
                            assert(text_in(ded@, cs[k]@.text));
                        }
                    }
                } else {
                    proof {
                        let old_ded2 = ded@;
                        assert forall|i: int| #![trigger ded@[i]] 0 <= i
                            < ded@.len() implies rep_upto(cs, idxi + 1, ded@[i]@) by {
                            assert(rep_upto(cs, idxi, old_ded2[i]@));
                            let k0 = choose|k: int|
                                first_best_upto(cs, idxi, k) && old_ded2[i]@ == cs[k]@;
                            if i == ji {
                                assert(cs[idxi]@.score <= cs[k0]@.score);
                            } else {
                                assert(old_ded2[i]@.text != old_ded2[ji]@.text);
                                assert(cs[k0]@.text != cs[idxi]@.text);
                            }
                            assert(first_best_upto(cs, idxi + 1, k0));
                            assert(rep_upto(cs, idxi + 1, ded@[i]@));
                        }
                        assert forall|k: int| #![trigger cs[k]] 0 <= k
                            < idxi + 1 implies text_in(ded@, cs[k]@.text) by {
                            if k == idxi {
                                assert(ded@[ji]@.text == cs[idxi]@.text);
                            }
                            assert(text_in(ded@, cs[k]@.text));
                        }
                    }
                }
            },
            None => {
                let ghost old_ded = ded@;
                proof {
                    assert forall|m: int|
                        0 <= m < idxi && cs[m]@.text == cs[idxi]@.text implies false by {
                        assert(text_in(old_ded, cs[m]@.text));
                        let i0 = choose|i: int|
                            0 <= i < old_ded.len() && old_ded[i]@.text == cs[m]@.text;
                        assert(old_ded[i0]@.text != cc@.text);
                    }
                    assert(first_best_upto(cs, idxi + 1, idxi));
                }
                ded.push(c);
                proof {
                    assert(ded@ == old_ded.push(cc));
                    assert forall|i1: int, j1: int|
                        0 <= i1 < j1 < ded@.len() implies ded@[i1]@.text != ded@[j1]@.text by {
                        assert(ded@[i1] == old_ded[i1]);
                        if j1 == old_ded.len() as int {
                            assert(ded@[j1]@ == cc@);
                        } else {
                            assert(ded@[j1] == old_ded[j1]);
                        }
                    }
                    assert forall|i: int| #![trigger ded@[i]] 0 <= i
                        < ded@.len() implies rep_upto(cs, idxi + 1, ded@[i]@) by {
                        if i < old_ded.len() {
                            assert(ded@[i] == old_ded[i]);
                            assert(rep_upto(cs, idxi, old_ded[i]@));
                            let k0 = choose|k: int|
                                first_best_upto(cs, idxi, k) && old_ded[i]@ == cs[k]@;
                            assert(cs[k0]@.text != cs[idxi]@.text);
                            assert(first_best_upto(cs, idxi + 1, k0));
                        } else {
                            assert(ded@[i]@ == cs[idxi]@);
                            assert(first_best_upto(cs, idxi + 1, idxi));
                        }
                        assert(rep_upto(cs, idxi + 1, ded@[i]@));
                    }
                    assert forall|k: int| #![trigger cs[k]] 0 <= k < idxi + 1 implies text_in(
                        ded@,
                        cs[k]@.text,
                    ) by {
                        if k < idxi {
                            assert(text_in(old_ded, cs[k]@.text));
                            let i0 = choose|i: int|
                                0 <= i < old_ded.len() && old_ded[i]@.text == cs[k]@.text;
                            assert(ded@[i0] == old_ded[i0]);
                        } else {
                            assert(ded@[old_ded.len() as int]@.text == cs[idxi]@.text);
                        }
                        assert(text_in(ded@, cs[k]@.text));
                    }
                }
            },
        }
        idx = idx + 1;
    }
    proof {
        assert forall|i: int| #![trigger ded@[i]] 0 <= i < ded@.len() implies rep_of(
            candidates@,
            ded@[i]@,
        ) by {
            assert(rep_upto(cs, cs.len() as int, ded@[i]@));
            let k0 = choose|k: int| first_best_upto(cs, cs.len() as int, k) && ded@[i]@ == cs[k]@;
            assert(first_best(candidates@, k0));
            assert(ded@[i]@ == candidates@[k0]@);
            assert(rep_of(candidates@, ded@[i]@));
        }
        assert forall|k: int| #![trigger candidates@[k]] 0 <= k
            < candidates@.len() implies text_in(ded@, candidates@[k]@.text) by {
            assert(cs[k] == candidates@[k]);
            assert(text_in(ded@, cs[k]@.text));
        }
    }
    ded
}

proof fn lemma_insert_ranked(s: Seq<RankedCandidate>, d: RankedCandidate, p: int)
    requires
        ranked_seq(s),
        distinct_texts(s),
        0 <= p <= s.len(),
        forall|i: int| #![trigger s[i]] 0 <= i < p ==> rank_before(s[i]@, d@),
        p < s.len() ==> rank_before(d@, s[p]@),
        forall|i: int| #![trigger s[i]] 0 <= i < s.len() ==> s[i]@.text != d@.text,
    ensures
        ranked_seq(s.insert(p, d)),
        distinct_texts(s.insert(p, d)),
        s.insert(p, d).len() == s.len() + 1,
        s.insert(p, d)[p] == d,
        forall|i: int| 0 <= i < p ==> s.insert(p, d)[i] == s[i],
        forall|i: int| p < i < s.len() + 1 ==> s.insert(p, d)[i] == s[i - 1],
{
    let t = s.insert(p, d);
    assert forall|j: int| p <= j < s.len() implies rank_before(d@, s[j]@) by {
        if j > p {
            lemma_rank_trans(d@, s[p]@, s[j]@);
        }
    }
    assert forall|i: int, j: int|
        #![trigger t[i], t[j]]
        0 <= i < j < t.len() implies rank_before(t[i]@, t[j]@) && t[i]@.text != t[j]@.text by {
        if j < p {
            assert(t[i] == s[i] && t[j] == s[j]);
        } else if i < p && j == p {
            assert(t[i] == s[i]);
        } else if i < p && j > p {
            assert(t[i] == s[i] && t[j] == s[j - 1]);
        } else if i == p {
            assert(t[j] == s[j - 1]);
        } else {
            assert(t[i] == s[i - 1] && t[j] == s[j - 1]);
        }
        if t[i]@.text == t[j]@.text {
            assert(t[i]@.score == t[j]@.score);
            lemma_lex_asym(t[i]@.text, t[j]@.text);
        }
    }
}

/// Sort candidates with pairwise-distinct texts into ranked order.
fn sort_candidates(ded: Vec<RankedCandidate>) -> (r: Vec<RankedCandidate>)
    requires
        distinct_texts(ded@),
    ensures
        sorted_pool(ded@, r@),
{
    let mut out: Vec<RankedCandidate> = Vec::new();
    let mut di: usize = 0;
    while di < ded.len()
        invariant
            distinct_texts(ded@),
            0 <= di <= ded@.len(),
            out@.len() == di,
            ranked_seq(out@),
            distinct_texts(out@),
            forall|i: int|
                #![trigger out@[i]]
                0 <= i < out@.len() ==> view_in_upto(ded@, di as int, out@[i]@),
            forall|j: int| #![trigger ded@[j]] 0 <= j < di ==> view_in(out@, ded@[j]@),
        decreases ded@.len() - di,
    {
        let ghost dii = di as int;
        let d = ded[di].duplicate();
        let ghost dd = d;
        let ghost old_out = out@;
        proof {
            assert(dd@ == ded@[dii]@);
            assert forall|i: int| #![trigger old_out[i]] 0 <= i
                < old_out.len() implies old_out[i]@.text != dd@.text by {
                assert(view_in_upto(ded@, dii, old_out[i]@));
                let j = choose|j: int| 0 <= j < dii <= ded@.len() && ded@[j]@ == old_out[i]@;
                assert(ded@[j]@.text != ded@[dii]@.text);
            }
        }
        let mut p: usize = 0;
        while p < out.len() && !rank_before_exec(&d, &out[p])
            invariant
                0 <= p <= out@.len(),
                out@ == old_out,
                dd@ == d@,
                forall|i: int| #![trigger out@[i]] 0 <= i < p ==> !rank_before(d@, out@[i]@),
            decreases out@.len() - p,
        {
            p = p + 1;
        }
        proof {
            assert forall|i: int| #![trigger old_out[i]] 0 <= i < p implies rank_before(
                old_out[i]@,
                dd@,
            ) by {
                lemma_rank_total(old_out[i]@, dd@);
            }
        }
        out.insert(p, d);
        proof {
            let pi = p as int;
            assert(out@ == old_out.insert(pi, dd));
            lemma_insert_ranked(old_out, dd, pi);
            assert forall|i: int| #![trigger out@[i]] 0 <= i < out@.len() implies view_in_upto(
                ded@,
                dii + 1,
                out@[i]@,
            ) by {
                if i == pi {
                    assert(out@[i] == dd);
                    assert(out@[i]@ == ded@[dii]@);
                } else if i < pi {
                    assert(out@[i] == old_out[i]);
                    assert(view_in_upto(ded@, dii, out@[i]@));
                    let j0 = choose|j: int| 0 <= j < dii <= ded@.len() && ded@[j]@ == out@[i]@;
                    assert(0 <= j0 < dii + 1 && ded@[j0]@ == out@[i]@);
                } else {
                    assert(out@[i] == old_out[i - 1]);
                    assert(view_in_upto(ded@, dii, out@[i]@));
                    let j0 = choose|j: int| 0 <= j < dii <= ded@.len() && ded@[j]@ == out@[i]@;
                    assert(0 <= j0 < dii + 1 && ded@[j0]@ == out@[i]@);
                }
                assert(view_in_upto(ded@, dii + 1, out@[i]@));
            }
            assert forall|j: int| #![trigger ded@[j]] 0 <= j < dii + 1 implies view_in(
                out@,
                ded@[j]@,
            ) by {
                if j == dii {
                    assert(out@[pi] == dd);
                    assert(out@[pi]@ == ded@[j]@);
                } else {
                    assert(view_in(old_out, ded@[j]@));
                    let i0 = choose|i: int| 0 <= i < old_out.len() && old_out[i]@ == ded@[j]@;
                    if i0 < pi {
                        assert(out@[i0] == old_out[i0]);
                    } else {
                        assert(out@[i0 + 1] == old_out[i0]);
                    }
                }
                assert(view_in(out@, ded@[j]@));
            }
        }
        di = di + 1;
    }
    proof {
        assert forall|i: int| #![trigger out@[i]] 0 <= i < out@.len() implies view_in(
            ded@,
            out@[i]@,
        ) by {
            assert(view_in_upto(ded@, ded@.len() as int, out@[i]@));
            let j0 = choose|j: int|
                0 <= j < ded@.len() as int <= ded@.len() && ded@[j]@ == out@[i]@;
            assert(0 <= j0 < ded@.len() && ded@[j0]@ == out@[i]@);
            assert(view_in(ded@, out@[i]@));
        }
    }
    out
}

/// Group candidates by exact text keeping, for each text, the first entry
/// that reaches the maximal score; then order the survivors by descending
/// score, ties broken by ascending text. The resulting order is total and
/// reproducible: scores never increase along it and no text appears twice.
pub fn deduplicate_and_sort_candidates(candidates: Vec<RankedCandidate>) -> (r: Vec<
    RankedCandidate,
>)
    ensures
        dedup_ranked(candidates@, r@),
{
    let ded = dedup_candidates(&candidates);
    let r = sort_candidates(ded);
    proof {
        let cs = candidates@;
        assert forall|i: int| #![trigger r@[i]] 0 <= i < r@.len() implies rep_of(cs, r@[i]@) by {
            assert(view_in(ded@, r@[i]@));
            let j = choose|j: int| 0 <= j < ded@.len() && ded@[j]@ == r@[i]@;
            assert(rep_of(cs, ded@[j]@));
            let k0 = choose|k: int| first_best(cs, k) && ded@[j]@ == cs[k]@;
            assert(first_best(cs, k0) && r@[i]@ == cs[k0]@);
            assert(rep_of(cs, r@[i]@));
        }
        assert forall|k: int| #![trigger cs[k]] first_best(cs, k) implies view_in(r@, cs[k]@) by {
            assert(text_in(ded@, cs[k]@.text));
            let i0 = choose|i: int| 0 <= i < ded@.len() && ded@[i]@.text == cs[k]@.text;
            assert(rep_of(cs, ded@[i0]@));
            let k0 = choose|k0: int| first_best(cs, k0) && ded@[i0]@ == cs[k0]@;
            assert(cs[k0]@.text == cs[k]@.text);
            assert(k0 == k) by {
                if k0 < k {
                    assert(cs[k0]@.score < cs[k]@.score);
                    assert(cs[k]@.score <= cs[k0]@.score);
                } else if k < k0 {
                    assert(cs[k]@.score < cs[k0]@.score);
                    assert(cs[k0]@.score <= cs[k]@.score);
                }
            }
            assert(view_in(r@, ded@[i0]@));
            let i1 = choose|i: int| 0 <= i < r@.len() && r@[i]@ == ded@[i0]@;
            assert(r@[i1]@ == cs[k]@);
            assert(view_in(r@, cs[k]@));
        }
    }
    r
}

/// A ranked, text-distinct rendering of a candidate pool is unique: any two
/// sequences with the same element views in ranked order agree position by
/// position. This is what makes discovery deterministic.
pub proof fn lemma_ranked_views_unique(a: Seq<RankedCandidate>, b: Seq<RankedCandidate>)
    requires
        ranked_seq(a),
        ranked_seq(b),
        distinct_texts(a),
        distinct_texts(b),
        forall|i: int| #![trigger a[i]] 0 <= i < a.len() ==> view_in(b, a[i]@),
        forall|j: int| #![trigger b[j]] 0 <= j < b.len() ==> view_in(a, b[j]@),
    ensures
        a.len() == b.len(),
        forall|i: int| #![trigger a[i]] 0 <= i < a.len() ==> a[i]@ == b[i]@,
    decreases a.len(),
{
    if a.len() == 0 {
        if b.len() > 0 {
            assert(view_in(a, b[0]@));
            let i0 = choose|i: int| 0 <= i < a.len() && a[i]@ == b[0]@;
            assert(false);
        }
    } else {
        if b.len() == 0 {
            assert(view_in(b, a[0]@));
            let j0 = choose|j: int| 0 <= j < b.len() && b[j]@ == a[0]@;
            assert(false);
        }
        // The heads agree: each head occurs in the other sequence, and the
        // ranked order pushes everything else strictly later.
        assert(view_in(b, a[0]@));
        assert(view_in(a, b[0]@));
        let jb = choose|j: int| 0 <= j < b.len() && b[j]@ == a[0]@;
        let ia = choose|i: int| 0 <= i < a.len() && a[i]@ == b[0]@;
        if jb > 0 && ia > 0 {
            assert(rank_before(b[0]@, b[jb]@));
            assert(rank_before(a[0]@, a[ia]@));
            lemma_rank_asym(a[0]@, b[0]@);
            assert(false);
        }
        assert(a[0]@ == b[0]@);
        let at = a.drop_first();
        let bt = b.drop_first();
        assert forall|i: int, j: int|
            #![trigger at[i], at[j]]
            0 <= i < j < at.len() implies rank_before(at[i]@, at[j]@) && at[i]@.text
            != at[j]@.text by {
            assert(at[i] == a[i + 1] && at[j] == a[j + 1]);
        }
        assert forall|i: int, j: int|
            #![trigger bt[i], bt[j]]
            0 <= i < j < bt.len() implies rank_before(bt[i]@, bt[j]@) && bt[i]@.text
            != bt[j]@.text by {
            assert(bt[i] == b[i + 1] && bt[j] == b[j + 1]);
        }
        assert forall|i: int| #![trigger at[i]] 0 <= i < at.len() implies view_in(bt, at[i]@) by {
            assert(at[i] == a[i + 1]);
            assert(view_in(b, a[i + 1]@));
            let j = choose|j: int| 0 <= j < b.len() && b[j]@ == a[i + 1]@;
            assert(a[i + 1]@.text != a[0]@.text);
            assert(j != 0);
            assert(bt[j - 1] == b[j]);
            assert(view_in(bt, at[i]@));
        }
        assert forall|j: int| #![trigger bt[j]] 0 <= j < bt.len() implies view_in(at, bt[j]@) by {
            assert(bt[j] == b[j + 1]);
            assert(view_in(a, b[j + 1]@));
            let i = choose|i: int| 0 <= i < a.len() && a[i]@ == b[j + 1]@;
            assert(b[j + 1]@.text != b[0]@.text);
            assert(i != 0);
            assert(at[i - 1] == a[i]);
            assert(view_in(at, bt[j]@));
        }
        lemma_ranked_views_unique(at, bt);
        assert forall|i: int| #![trigger a[i]] 0 <= i < a.len() implies a[i]@ == b[i]@ by {
            if i > 0 {
                assert(at[i - 1] == a[i] && bt[i - 1] == b[i]);
                assert(at[i - 1]@ == bt[i - 1]@);
            }
        }
    }
}

/// `first_best` depends only on the element views.
pub proof fn lemma_first_best_transfer(c1: Seq<RankedCandidate>, c2: Seq<RankedCandidate>, k: int)
    requires
        c1.len() == c2.len(),
        forall|i: int| #![trigger c1[i]] 0 <= i < c1.len() ==> c1[i]@ == c2[i]@,
        first_best(c1, k),
    ensures
        first_best(c2, k),
{
    assert forall|m: int|
        #![trigger c2[m]]
        0 <= m < c2.len() && c2[m]@.text == c2[k]@.text implies c2[m]@.score
        <= c2[k]@.score by {
        assert(c1[m]@ == c2[m]@);
        assert(c1[k]@ == c2[k]@);
    }
    assert forall|m: int|
        #![trigger c2[m]]
        0 <= m < k && c2[m]@.text == c2[k]@.text implies c2[m]@.score < c2[k]@.score by {
        assert(c1[m]@ == c2[m]@);
        assert(c1[k]@ == c2[k]@);
    }
}

/// Ranking monotonicity: along a ranked candidate list, scores never
/// increase, and equal-score neighbours are ordered by ascending text.
pub proof fn lemma_ranking_monotonic(cs: Seq<RankedCandidate>, r: Seq<RankedCandidate>)
    requires
        dedup_ranked(cs, r),
    ensures
        forall|i: int, j: int|
            #![trigger r[i], r[j]]
            0 <= i < j < r.len() ==> r[i]@.score >= r[j]@.score,
        forall|i: int, j: int|
            #![trigger r[i], r[j]]
            0 <= i < j < r.len() && r[i]@.score == r[j]@.score ==> lex_lt(r[i]@.text, r[j]@.text),
{
}

/// Deduplication uniqueness: no two entries of a ranked candidate list
/// share the same text.
pub proof fn lemma_dedup_unique_texts(cs: Seq<RankedCandidate>, r: Seq<RankedCandidate>)
    requires
        dedup_ranked(cs, r),
    ensures
        forall|i: int, j: int|
            #![trigger r[i], r[j]]
            0 <= i < j < r.len() ==> r[i]@.text != r[j]@.text,
{
}

} // verus!
