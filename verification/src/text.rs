//! Verified text utilities: character classes, substring search, trimming,
//! prefix extraction and a lexicographic order on strings. All contracts are
//! stated over `Seq<char>` views.
use vstd::prelude::*;

verus! {

/// An ASCII decimal digit.
pub open spec fn is_digit(c: char) -> bool {
    48 <= c as u32 <= 57
}

/// Whitespace as trimming understands it: the ASCII blanks and the
/// ideographic space that the source pages use.
pub open spec fn is_ws(c: char) -> bool {
    c == ' ' || c == '\t' || c == '\n' || c == '\r' || c == '\u{3000}'
}

/// Executable test for `is_digit`.
pub fn digit_char(c: char) -> (r: bool)
    ensures
        r == is_digit(c),
{
    let u: u32 = c as u32;
    48 <= u && u <= 57
}

/// Executable test for `is_ws`.
pub fn ws_char(c: char) -> (r: bool)
    ensures
        r == is_ws(c),
{
    c == ' ' || c == '\t' || c == '\n' || c == '\r' || c == '\u{3000}'
}

/// Whether some character of `s` is a decimal digit.
pub open spec fn has_digit(s: Seq<char>) -> bool {
    exists|i: int| 0 <= i < s.len() && is_digit(s[i])
}

/// Executable test for `has_digit`.
pub fn contains_digit(s: &str) -> (r: bool)
    ensures
        r == has_digit(s@),
{
    let n: usize = s.unicode_len();
    let mut i: usize = 0;
    while i < n
        invariant
            n == s@.len(),
            0 <= i <= n,
            forall|j: int| 0 <= j < i ==> !is_digit(s@[j]),
        decreases n - i,
    {
        if digit_char(s.get_char(i)) {
            return true;
        }
        i = i + 1;
    }
    false
}

/// Whether `c` occurs in `s`.
pub open spec fn has_char(s: Seq<char>, c: char) -> bool {
    exists|i: int| 0 <= i < s.len() && s[i] == c
}

/// First index of `c` in `s`, if any.
pub fn find_char(s: &str, c: char) -> (r: Option<usize>)
    ensures
        match r {
            Some(k) => 0 <= k < s@.len() && s@[k as int] == c && forall|j: int|
                0 <= j < k ==> s@[j] != c,
            None => !has_char(s@, c),
        },
{
    let n: usize = s.unicode_len();
    let mut i: usize = 0;
    while i < n
        invariant
            n == s@.len(),
            0 <= i <= n,
            forall|j: int| 0 <= j < i ==> s@[j] != c,
        decreases n - i,
    {
        if s.get_char(i) == c {
            return Some(i);
        }
        i = i + 1;
    }
    None
}

/// Executable test for `has_char`.
pub fn contains_char(s: &str, c: char) -> (r: bool)
    ensures
        r == has_char(s@, c),
{
    find_char(s, c).is_some()
}

/// `needle` occurs in `hay` starting at position `k`.
pub open spec fn substr_at(hay: Seq<char>, needle: Seq<char>, k: int) -> bool {
    0 <= k && k + needle.len() <= hay.len() && hay.subrange(k, k + needle.len() as int)
        == needle
}

/// `needle` occurs somewhere in `hay`.
pub open spec fn has_substr(hay: Seq<char>, needle: Seq<char>) -> bool {
    exists|k: int| substr_at(hay, needle, k)
}

/// First position where `needle` occurs in `hay`, if any.
pub fn find_substr(hay: &str, needle: &str) -> (r: Option<usize>)
    ensures
        match r {
            Some(k) => substr_at(hay@, needle@, k as int) && forall|j: int|
                0 <= j < k ==> !substr_at(hay@, needle@, j),
            None => !has_substr(hay@, needle@),
        },
{
    let n: usize = hay.unicode_len();
    let m: usize = needle.unicode_len();
    if m > n {
        return None;
    }
    if m == 0 {
        proof {
            assert(hay@.subrange(0, 0) =~= needle@);
        }
        return Some(0);
    }
    let mut k: usize = 0;
    while k <= n - m
        invariant
            n == hay@.len(),
            m == needle@.len(),
            0 < m <= n,
            0 <= k <= n - m + 1,
            forall|j: int| 0 <= j < k ==> !substr_at(hay@, needle@, j),
        decreases n - m + 1 - k,
    {
        let mut i: usize = 0;
        let mut mismatch: bool = false;
        while i < m && !mismatch
            invariant
                n == hay@.len(),
                m == needle@.len(),
                k + m <= n,
                0 <= i <= m,
                !mismatch ==> forall|j: int| 0 <= j < i ==> hay@[k + j] == needle@[j],
                mismatch ==> !substr_at(hay@, needle@, k as int),
            decreases m - i + (if mismatch { 0int } else { 1int }),
        {
            if hay.get_char(k + i) != needle.get_char(i) {
                proof {
                    assert(hay@.subrange(k as int, k + m as int) == needle@ ==> hay@.subrange(
                        k as int,
                        k + m as int,
                    )[i as int] == needle@[i as int]);
                }
                mismatch = true;
            } else {
                i = i + 1;
            }
        }
        if !mismatch {
            proof {
                assert(hay@.subrange(k as int, k + m as int) =~= needle@);
            }
            return Some(k);
        }
        k = k + 1;
    }
    proof {
        assert forall|j: int| !substr_at(hay@, needle@, j) by {
            if 0 <= j <= n - m {
                assert(!substr_at(hay@, needle@, j));
            }
        }
    }
    None
}

/// Executable test for `has_substr`.
pub fn contains_substr(hay: &str, needle: &str) -> (r: bool)
    ensures
        r == has_substr(hay@, needle@),
{
    find_substr(hay, needle).is_some()
}

/// Length of the run of whitespace at the front of `s`.
pub open spec fn lead_ws(s: Seq<char>) -> int
    decreases s.len(),
{
    if s.len() == 0 {
        0
    } else if is_ws(s[0]) {
        1 + lead_ws(s.drop_first())
    } else {
        0
    }
}

/// Length of the run of whitespace at the back of `s`.
pub open spec fn trail_ws(s: Seq<char>) -> int
    decreases s.len(),
{
    if s.len() == 0 {
        0
    } else if is_ws(s.last()) {
        1 + trail_ws(s.drop_last())
    } else {
        0
    }
}

/// `s` with leading and trailing whitespace removed.
pub open spec fn trim_spec(s: Seq<char>) -> Seq<char> {
    if lead_ws(s) == s.len() {
        Seq::empty()
    } else {
        s.subrange(lead_ws(s), s.len() - trail_ws(s))
    }
}

pub(crate) proof fn lemma_lead_ws_is(s: Seq<char>, i: int)
    requires
        0 <= i <= s.len(),
        forall|j: int| 0 <= j < i ==> is_ws(s[j]),
        i < s.len() ==> !is_ws(s[i]),
    ensures
        lead_ws(s) == i,
    decreases s.len(),
{
    if i > 0 {
        lemma_lead_ws_is(s.drop_first(), i - 1);
    }
}

proof fn lemma_trail_ws_is(s: Seq<char>, t: int)
    requires
        0 <= t <= s.len(),
        forall|j: int| s.len() - t <= j < s.len() ==> is_ws(s[j]),
        t < s.len() ==> !is_ws(s[s.len() - t - 1]),
    ensures
        trail_ws(s) == t,
    decreases s.len(),
{
    if t > 0 {
        lemma_trail_ws_is(s.drop_last(), t - 1);
    }
}

/// Trim whitespace from both ends.
pub fn trim_str(s: &str) -> (r: String)
    ensures
        r@ == trim_spec(s@),
{
    let n: usize = s.unicode_len();
    let mut lo: usize = 0;
    while lo < n && ws_char(s.get_char(lo))
        invariant
            n == s@.len(),
            0 <= lo <= n,
            forall|j: int| 0 <= j < lo ==> is_ws(s@[j]),
        decreases n - lo,
    {
        lo = lo + 1;
    }
    if lo == n {
        proof {
            lemma_lead_ws_is(s@, n as int);
        }
        return String::new();
    }
    proof {
        lemma_lead_ws_is(s@, lo as int);
    }
    let mut hi: usize = n - 1;
    while hi > lo && ws_char(s.get_char(hi))
        invariant
            n == s@.len(),
            lo <= hi < n,
            !is_ws(s@[lo as int]),
            forall|j: int| hi < j < n ==> is_ws(s@[j]),
        decreases hi,
    {
        hi = hi - 1;
    }
    proof {
        lemma_trail_ws_is(s@, n - 1 - hi as int);
    }
    let sub: &str = s.substring_char(lo, hi + 1);
    String::from_str(sub)
}

/// Index of the first occurrence of `c` in `s`, or `s.len()` if absent.
pub open spec fn first_char_idx(s: Seq<char>, c: char) -> int
    decreases s.len(),
{
    if s.len() == 0 {
        0
    } else if s[0] == c {
        0
    } else {
        1 + first_char_idx(s.drop_first(), c)
    }
}

/// The part of `s` before the first occurrence of `c` (all of `s` if `c` is
/// absent).
pub open spec fn prefix_before(s: Seq<char>, c: char) -> Seq<char> {
    s.subrange(0, first_char_idx(s, c))
}

pub(crate) proof fn lemma_first_char_idx_is(s: Seq<char>, c: char, i: int)
    requires
        0 <= i <= s.len(),
        forall|j: int| 0 <= j < i ==> s[j] != c,
        i < s.len() ==> s[i] == c,
    ensures
        first_char_idx(s, c) == i,
    decreases s.len(),
{
    if i > 0 {
        lemma_first_char_idx_is(s.drop_first(), c, i - 1);
    }
}

/// The text before the first occurrence of `c`.
pub fn split_before_char(s: &str, c: char) -> (r: String)
    ensures
        r@ == prefix_before(s@, c),
{
    let n: usize = s.unicode_len();
    let cut: usize = match find_char(s, c) {
        Some(k) => {
            proof {
                lemma_first_char_idx_is(s@, c, k as int);
            }
            k
        },
        None => {
            proof {
                lemma_first_char_idx_is(s@, c, n as int);
            }
            n
        },
    };
    let sub: &str = s.substring_char(0, cut);
    proof {
        assert(sub@ =~= prefix_before(s@, c));
    }
    String::from_str(sub)
}

/// Index of the first occurrence of `sub` in `s`, or `s.len()` if absent.
pub open spec fn first_sub_idx(s: Seq<char>, sub: Seq<char>) -> int
    decreases s.len(),
{
    if substr_at(s, sub, 0) {
        0
    } else if s.len() == 0 {
        0
    } else {
        1 + first_sub_idx(s.drop_first(), sub)
    }
}

/// The part of `s` before the first occurrence of `sub` (all of `s` if
/// `sub` is absent).
pub open spec fn prefix_before_sub(s: Seq<char>, sub: Seq<char>) -> Seq<char> {
    s.subrange(0, first_sub_idx(s, sub))
}

pub(crate) proof fn lemma_first_sub_idx_is(s: Seq<char>, sub: Seq<char>, k: int)
    requires
        sub.len() > 0,
        0 <= k <= s.len(),
        forall|j: int| 0 <= j < k ==> !substr_at(s, sub, j),
        k < s.len() ==> substr_at(s, sub, k),
        k == s.len() ==> !has_substr(s, sub),
    ensures
        first_sub_idx(s, sub) == k,
    decreases s.len(),
{
    if substr_at(s, sub, 0) {
        assert(k == 0);
    } else if s.len() == 0 {
        assert(k == 0);
    } else {
        let t = s.drop_first();
        assert forall|j: int| 0 <= j < k - 1 implies !substr_at(t, sub, j) by {
            if j + sub.len() <= t.len() {
                assert(t.subrange(j, j + sub.len() as int) =~= s.subrange(
                    j + 1,
                    j + 1 + sub.len() as int,
                ));
                assert(!substr_at(s, sub, j + 1));
            }
        }
        if k < s.len() {
            if k == 0 {
            } else {
                assert(t.subrange(k - 1, k - 1 + sub.len() as int) =~= s.subrange(
                    k,
                    k + sub.len() as int,
                ));
                assert(substr_at(t, sub, k - 1));
                lemma_first_sub_idx_is(t, sub, k - 1);
            }
        } else {
            assert forall|j: int| !substr_at(t, sub, j) implies true by {}
            assert(!has_substr(t, sub)) by {
                if has_substr(t, sub) {
                    let j = choose|j: int| substr_at(t, sub, j);
                    assert(t.subrange(j, j + sub.len() as int) =~= s.subrange(
                        j + 1,
                        j + 1 + sub.len() as int,
                    ));
                    assert(substr_at(s, sub, j + 1));
                }
            }
            lemma_first_sub_idx_is(t, sub, k - 1);
        }
    }
}

/// The text before the first occurrence of `sub`.
pub fn split_before_sub(s: &str, sub: &str) -> (r: String)
    requires
        sub@.len() > 0,
    ensures
        r@ == prefix_before_sub(s@, sub@),
{
    let n: usize = s.unicode_len();
    let cut: usize = match find_substr(s, sub) {
        Some(k) => {
            proof {
                lemma_first_sub_idx_is(s@, sub@, k as int);
            }
            k
        },
        None => {
            proof {
                lemma_first_sub_idx_is(s@, sub@, n as int);
            }
            n
        },
    };
    let piece: &str = s.substring_char(0, cut);
    proof {
        assert(piece@ =~= prefix_before_sub(s@, sub@));
    }
    String::from_str(piece)
}

/// A parenthesis character.
pub open spec fn is_paren(c: char) -> bool {
    c == '(' || c == ')'
}

/// Executable test for `is_paren`.
pub fn paren_char(c: char) -> (r: bool)
    ensures
        r == is_paren(c),
{
    c == '(' || c == ')'
}

/// Length of the run of parentheses at the front of `s`.
pub open spec fn lead_paren(s: Seq<char>) -> int
    decreases s.len(),
{
    if s.len() == 0 {
        0
    } else if is_paren(s[0]) {
        1 + lead_paren(s.drop_first())
    } else {
        0
    }
}

/// Length of the run of parentheses at the back of `s`.
pub open spec fn trail_paren(s: Seq<char>) -> int
    decreases s.len(),
{
    if s.len() == 0 {
        0
    } else if is_paren(s.last()) {
        1 + trail_paren(s.drop_last())
    } else {
        0
    }
}

/// `s` with leading and trailing parentheses removed.
pub open spec fn strip_parens_spec(s: Seq<char>) -> Seq<char> {
    if lead_paren(s) == s.len() {
        Seq::empty()
    } else {
        s.subrange(lead_paren(s), s.len() - trail_paren(s))
    }
}

proof fn lemma_lead_paren_is(s: Seq<char>, i: int)
    requires
        0 <= i <= s.len(),
        forall|j: int| 0 <= j < i ==> is_paren(s[j]),
        i < s.len() ==> !is_paren(s[i]),
    ensures
        lead_paren(s) == i,
    decreases s.len(),
{
    if i > 0 {
        lemma_lead_paren_is(s.drop_first(), i - 1);
    }
}

proof fn lemma_trail_paren_is(s: Seq<char>, t: int)
    requires
        0 <= t <= s.len(),
        forall|j: int| s.len() - t <= j < s.len() ==> is_paren(s[j]),
        t < s.len() ==> !is_paren(s[s.len() - t - 1]),
    ensures
        trail_paren(s) == t,
    decreases s.len(),
{
    if t > 0 {
        lemma_trail_paren_is(s.drop_last(), t - 1);
    }
}

/// Strip parentheses from both ends.
pub fn strip_parens(s: &str) -> (r: String)
    ensures
        r@ == strip_parens_spec(s@),
{
    let n: usize = s.unicode_len();
    let mut lo: usize = 0;
    while lo < n && paren_char(s.get_char(lo))
        invariant
            n == s@.len(),
            0 <= lo <= n,
            forall|j: int| 0 <= j < lo ==> is_paren(s@[j]),
        decreases n - lo,
    {
        lo = lo + 1;
    }
    if lo == n {
        proof {
            lemma_lead_paren_is(s@, n as int);
        }
        return String::new();
    }
    proof {
        lemma_lead_paren_is(s@, lo as int);
    }
    let mut hi: usize = n - 1;
    while hi > lo && paren_char(s.get_char(hi))
        invariant
            n == s@.len(),
            lo <= hi < n,
            !is_paren(s@[lo as int]),
            forall|j: int| hi < j < n ==> is_paren(s@[j]),
        decreases hi,
    {
        hi = hi - 1;
    }
    proof {
        lemma_trail_paren_is(s@, n - 1 - hi as int);
    }
    let piece: &str = s.substring_char(lo, hi + 1);
    String::from_str(piece)
}

/// The key a code is compared under: with suffix-stripping, everything
/// before the first dot; otherwise the code itself.
pub open spec fn comparison_key(code: Seq<char>, strip: bool) -> Seq<char> {
    if strip {
        prefix_before(code, '.')
    } else {
        code
    }
}

/// Normalize an instrument code for identity comparison.
pub fn normalize_code(code: &str, strip: bool) -> (r: String)
    ensures
        r@ == comparison_key(code@, strip),
{
    if strip {
        split_before_char(code, '.')
    } else {
        String::from_str(code)
    }
}

/// Whether a character counts as alphanumeric under Unicode. Names the
/// result of `char::is_alphanumeric`, which depends on the character alone.
pub uninterp spec fn unicode_alnum(c: char) -> bool;

/// Relies on char::is_alphanumeric: the Unicode alphanumeric classes,
/// decided by the character alone.
pub assume_specification[ char::is_alphanumeric ](c: char) -> (r: bool)
    ensures
        r == unicode_alnum(c),
;

/// The uppercase mapping of a character. Names the result of
/// `char::to_uppercase`, which depends on the character alone.
pub uninterp spec fn upper_of(c: char) -> Seq<char>;

/// Relies on char::to_uppercase: the Unicode uppercase mapping of the
/// character, possibly several characters long.
#[verifier::external_body]
fn char_upper(c: char) -> (r: String)
    ensures
        r@ == upper_of(c),
{
    c.to_uppercase().collect()
}

/// The camel-cased form of `s`: split on every non-alphanumeric character,
/// uppercase the first character of each part, and join the parts.
/// `at_start` says whether the next alphanumeric character opens a part.
pub open spec fn pascal_rec(s: Seq<char>, at_start: bool) -> Seq<char>
    decreases s.len(),
{
    if s.len() == 0 {
        Seq::empty()
    } else if !unicode_alnum(s[0]) {
        pascal_rec(s.drop_first(), true)
    } else if at_start {
        upper_of(s[0]) + pascal_rec(s.drop_first(), false)
    } else {
        seq![s[0]] + pascal_rec(s.drop_first(), false)
    }
}

/// The camel-cased form of `s`.
pub open spec fn pascal_spec(s: Seq<char>) -> Seq<char> {
    pascal_rec(s, true)
}

proof fn lemma_pascal_skip(s: Seq<char>, i: int, st: bool)
    requires
        0 <= i < s.len(),
    ensures
        pascal_rec(s.skip(i), st) == (if !unicode_alnum(s[i]) {
            pascal_rec(s.skip(i + 1), true)
        } else if st {
            upper_of(s[i]) + pascal_rec(s.skip(i + 1), false)
        } else {
            seq![s[i]] + pascal_rec(s.skip(i + 1), false)
        }),
{
    assert(s.skip(i)[0] == s[i]);
    assert(s.skip(i).drop_first() =~= s.skip(i + 1));
}

/// Camel-case an identifier-like text: split on every non-alphanumeric
/// character and uppercase the first character of each part.
pub fn to_pascal_case(s: &str) -> (r: String)
    ensures
        r@ == pascal_spec(s@),
{
    let n: usize = s.unicode_len();
    let mut out = String::new();
    let mut at_start: bool = true;
    proof {
        assert(s@.skip(0) =~= s@);
        assert(out@ + pascal_rec(s@.skip(0), true) =~= pascal_spec(s@));
    }
    let mut i: usize = 0;
    while i < n
        invariant
            n == s@.len(),
            0 <= i <= n,
            out@ + pascal_rec(s@.skip(i as int), at_start) == pascal_spec(s@),
        decreases n - i,
    {
        proof {
            lemma_pascal_skip(s@, i as int, at_start);
        }
        let c: char = s.get_char(i);
        if !c.is_alphanumeric() {
            at_start = true;
        } else if at_start {
            let up = char_upper(c);
            out.append(up.as_str());
            at_start = false;
        } else {
            let one: &str = s.substring_char(i, i + 1);
            proof {
                assert(one@ =~= seq![s@[i as int]]);
            }
            out.append(one);
            at_start = false;
        }
        proof {
            assert(out@ + pascal_rec(s@.skip(i + 1), at_start) =~= pascal_spec(s@));
        }
        i = i + 1;
    }
    proof {
        assert(s@.skip(n as int) =~= Seq::<char>::empty());
    }
    out
}

/// Strict lexicographic order on character sequences, by code point.
pub open spec fn lex_lt(a: Seq<char>, b: Seq<char>) -> bool
    decreases a.len(),
{
    if b.len() == 0 {
        false
    } else if a.len() == 0 {
        true
    } else if a[0] < b[0] {
        true
    } else if b[0] < a[0] {
        false
    } else {
        lex_lt(a.drop_first(), b.drop_first())
    }
}

/// `lex_lt` is irreflexive-asymmetric: of two distinct sequences at most one
/// precedes the other, and none precedes itself.
pub proof fn lemma_lex_asym(a: Seq<char>, b: Seq<char>)
    ensures
        lex_lt(a, b) ==> !lex_lt(b, a),
        lex_lt(a, a) == false,
    decreases a.len(),
{
    if a.len() > 0 && b.len() > 0 && a[0] == b[0] {
        lemma_lex_asym(a.drop_first(), b.drop_first());
    }
    if a.len() > 0 {
        lemma_lex_asym(a.drop_first(), a.drop_first());
    }
}

/// `lex_lt` is total: two sequences are ordered one way, the other way, or
/// equal.
pub proof fn lemma_lex_total(a: Seq<char>, b: Seq<char>)
    ensures
        lex_lt(a, b) || lex_lt(b, a) || a == b,
    decreases a.len(),
{
    if a.len() == 0 && b.len() == 0 {
        assert(a =~= b);
    } else if a.len() > 0 && b.len() > 0 && a[0] == b[0] {
        lemma_lex_total(a.drop_first(), b.drop_first());
        if a.drop_first() == b.drop_first() {
            assert(a.drop_first().len() == b.drop_first().len());
            assert(a.len() == b.len());
            assert forall|i: int| 0 <= i < a.len() implies a[i] == b[i] by {
                if i > 0 {
                    assert(a[i] == a.drop_first()[i - 1]);
                    assert(b[i] == b.drop_first()[i - 1]);
                }
            }
            assert(a =~= b);
        }
    }
}

/// `lex_lt` is transitive.
pub proof fn lemma_lex_trans(a: Seq<char>, b: Seq<char>, c: Seq<char>)
    requires
        lex_lt(a, b),
        lex_lt(b, c),
    ensures
        lex_lt(a, c),
    decreases a.len(),
{
    assert(b.len() > 0);
    assert(c.len() > 0);
    if a.len() > 0 {
        if a[0] < b[0] {
            assert(!(c[0] < b[0]));
        } else {
            assert(a[0] == b[0]);
            if b[0] == c[0] {
                lemma_lex_trans(a.drop_first(), b.drop_first(), c.drop_first());
            }
        }
    }
}

proof fn lemma_lex_from_prefix(a: Seq<char>, b: Seq<char>, i: int)
    requires
        0 <= i <= a.len(),
        i <= b.len(),
        forall|j: int| 0 <= j < i ==> a[j] == b[j],
    ensures
        (i < a.len() && i < b.len() && a[i] < b[i]) ==> lex_lt(a, b),
        (i < a.len() && i < b.len() && b[i] < a[i]) ==> !lex_lt(a, b),
        (i == a.len() && i < b.len()) ==> lex_lt(a, b),
        i == b.len() ==> !lex_lt(a, b),
    decreases i,
{
    if i > 0 {
        lemma_lex_from_prefix(a.drop_first(), b.drop_first(), i - 1);
    }
}

/// Executable lexicographic comparison.
pub fn str_lex_lt(a: &str, b: &str) -> (r: bool)
    ensures
        r == lex_lt(a@, b@),
{
    let na: usize = a.unicode_len();
    let nb: usize = b.unicode_len();
    let n: usize = if na < nb {
        na
    } else {
        nb
    };
    let mut i: usize = 0;
    while i < n
        invariant
            na == a@.len(),
            nb == b@.len(),
            n == if na < nb {
                na
            } else {
                nb
            },
            0 <= i <= n,
            forall|j: int| 0 <= j < i ==> a@[j] == b@[j],
        decreases n - i,
    {
        let ca: char = a.get_char(i);
        let cb: char = b.get_char(i);
        if ca < cb {
            proof {
                lemma_lex_from_prefix(a@, b@, i as int);
            }
            return true;
        }
        if ca > cb {
            proof {
                lemma_lex_from_prefix(a@, b@, i as int);
            }
            return false;
        }
        i = i + 1;
    }
    proof {
        lemma_lex_from_prefix(a@, b@, n as int);
    }
    na < nb
}

/// How many times `c` occurs in `s`.
pub open spec fn count_char(s: Seq<char>, c: char) -> int
    decreases s.len(),
{
    if s.len() == 0 {
        0
    } else {
        count_char(s.drop_last(), c) + if s.last() == c {
            1int
        } else {
            0int
        }
    }
}

/// The body of a decimal numeral with grouping separators: every character a
/// digit, a decimal point or a comma; at least one digit; at most one point.
pub open spec fn num_body(t: Seq<char>) -> bool {
    (forall|i: int| 0 <= i < t.len() ==> is_digit(t[i]) || t[i] == '.' || t[i] == ',')
        && has_digit(t) && count_char(t, '.') <= 1
}

/// `s` without one leading plus sign.
pub open spec fn strip_plus(s: Seq<char>) -> Seq<char> {
    if s.len() > 0 && s[0] == '+' {
        s.drop_first()
    } else {
        s
    }
}

/// `s` without one leading plus or minus sign.
pub open spec fn strip_sign(s: Seq<char>) -> Seq<char> {
    if s.len() > 0 && (s[0] == '+' || s[0] == '-') {
        s.drop_first()
    } else {
        s
    }
}

/// Text that reads, once grouping separators are removed, as a non-negative
/// decimal number.
pub open spec fn price_shape(s: Seq<char>) -> bool {
    num_body(strip_plus(s))
}

/// Text that reads, once grouping separators are removed, as a decimal number
/// with an optional sign.
pub open spec fn signed_num_shape(s: Seq<char>) -> bool {
    num_body(strip_sign(s))
}

fn num_body_check(s: &str, start: usize) -> (r: bool)
    requires
        start as int <= s@.len(),
    ensures
        r == num_body(s@.subrange(start as int, s@.len() as int)),
{
    let n: usize = s.unicode_len();
    let ghost t = s@.subrange(start as int, n as int);
    let mut i: usize = start;
    let mut dots: usize = 0;
    let mut seen_digit: bool = false;
    while i < n
        invariant
            n == s@.len(),
            start <= i <= n,
            t == s@.subrange(start as int, n as int),
            forall|j: int|
                start <= j < i ==> is_digit(s@[j]) || s@[j] == '.' || s@[j] == ',',
            seen_digit == exists|j: int| start <= j < i && is_digit(s@[j]),
            dots == count_char(s@.subrange(start as int, i as int), '.'),
            dots <= i,
        decreases n - i,
    {
        let c: char = s.get_char(i);
        if digit_char(c) {
            seen_digit = true;
        } else if c == '.' {
            dots = dots + 1;
        } else if c != ',' {
            proof {
                assert(t[i - start] == s@[i as int]);
            }
            return false;
        }
        proof {
            assert(s@.subrange(start as int, i + 1).drop_last() =~= s@.subrange(
                start as int,
                i as int,
            ));
            assert(s@.subrange(start as int, i + 1).last() == s@[i as int]);
        }
        i = i + 1;
    }
    proof {
        assert(t =~= s@.subrange(start as int, i as int));
        if seen_digit {
            let j = choose|j: int| start <= j < n && is_digit(s@[j]);
            assert(t[j - start] == s@[j]);
        }
        if has_digit(t) {
            let j = choose|j: int| 0 <= j < t.len() && is_digit(t[j]);
            assert(t[j] == s@[start + j]);
        }
    }
    seen_digit && dots <= 1
}

/// Executable test for `num_body` on a whole string.
pub fn num_body_text(s: &str) -> (r: bool)
    ensures
        r == num_body(s@),
{
    proof {
        assert(s@ =~= s@.subrange(0, s@.len() as int));
    }
    num_body_check(s, 0)
}

/// Executable test for `price_shape`.
pub fn price_text(s: &str) -> (r: bool)
    ensures
        r == price_shape(s@),
{
    let n: usize = s.unicode_len();
    let start: usize = if n > 0 && s.get_char(0) == '+' {
        1
    } else {
        0
    };
    proof {
        if start == 1 {
            assert(s@.drop_first() =~= s@.subrange(1, n as int));
        } else {
            assert(s@ =~= s@.subrange(0, n as int));
        }
    }
    num_body_check(s, start)
}

/// Executable test for `signed_num_shape`.
pub fn signed_num_text(s: &str) -> (r: bool)
    ensures
        r == signed_num_shape(s@),
{
    let n: usize = s.unicode_len();
    let start: usize = if n > 0 {
        let c: char = s.get_char(0);
        if c == '+' || c == '-' {
            1
        } else {
            0
        }
    } else {
        0
    };
    proof {
        if start == 1 {
            assert(s@.drop_first() =~= s@.subrange(1, n as int));
        } else {
            assert(s@ =~= s@.subrange(0, n as int));
        }
    }
    num_body_check(s, start)
}

/// Whether `s` begins with the character `c`.
pub fn first_char_is(s: &str, c: char) -> (r: bool)
    ensures
        r == (s@.len() > 0 && s@[0] == c),
{
    if s.unicode_len() == 0 {
        false
    } else {
        s.get_char(0) == c
    }
}

/// `s` ends with `suf`.
pub open spec fn ends_with(s: Seq<char>, suf: Seq<char>) -> bool {
    s.len() >= suf.len() && s.subrange(s.len() - suf.len(), s.len() as int) == suf
}

/// Executable test for `ends_with`.
pub fn ends_with_str(s: &str, suf: &str) -> (r: bool)
    ensures
        r == ends_with(s@, suf@),
{
    let n: usize = s.unicode_len();
    let m: usize = suf.unicode_len();
    if m > n {
        return false;
    }
    let off: usize = n - m;
    let mut i: usize = 0;
    while i < m
        invariant
            n == s@.len(),
            m == suf@.len(),
            off == n - m,
            0 <= i <= m,
            forall|j: int| 0 <= j < i ==> s@[off + j] == suf@[j],
        decreases m - i,
    {
        if s.get_char(off + i) != suf.get_char(i) {
            proof {
                assert(s@.subrange(off as int, n as int) == suf@ ==> s@.subrange(
                    off as int,
                    n as int,
                )[i as int] == suf@[i as int]);
            }
            return false;
        }
        i = i + 1;
    }
    proof {
        assert(s@.subrange(off as int, n as int) =~= suf@);
    }
    true
}

/// Executable equality of string views.
pub fn str_eq(a: &str, b: &str) -> (r: bool)
    ensures
        r == (a@ == b@),
{
    let na: usize = a.unicode_len();
    let nb: usize = b.unicode_len();
    if na != nb {
        return false;
    }
    let mut i: usize = 0;
    while i < na
        invariant
            na == a@.len(),
            nb == b@.len(),
            na == nb,
            0 <= i <= na,
            forall|j: int| 0 <= j < i ==> a@[j] == b@[j],
        decreases na - i,
    {
        if a.get_char(i) != b.get_char(i) {
            return false;
        }
        i = i + 1;
    }
    proof {
        assert(a@ =~= b@);
    }
    true
}

} // verus!
