//! Laws that hold of every line.
use vstd::prelude::*;
use crate::grammar::{
    CharClass, class_at, is_separator, is_space, is_structural, many, skip_separators,
    spec_tokenize, token, token_expr, lemma_run_end_bounds,
};
use crate::lemmas::{
    lemma_many_bounds, lemma_token_at_plain, lemma_token_bounds, lemma_token_expr_bounds,
};
use crate::shift::lemma_many_after_prefix;
use crate::suffix::lemma_many_before_whitespace;

verus! {

/// A line without braces, brackets, parentheses or `=` tokenizes, as long as
/// some character of it is not a separator: wherever a token may start, a
/// literal can be taken there. So `tokenize` returns `Ok` on such a line.
pub proof fn lemma_benign_line_tokenizes(s: Seq<char>)
    requires
        forall|i: int| 0 <= i < s.len() ==> !is_structural(#[trigger] s[i]),
        exists|i: int| 0 <= i < s.len() && !is_separator(#[trigger] s[i]),
    ensures
        spec_tokenize(s) is Some,
{
    let i = choose|i: int| 0 <= i < s.len() && !is_separator(#[trigger] s[i]);
    lemma_run_end_bounds(s, 0, CharClass::Separator);
    assert(skip_separators(s, 0) <= i);
    lemma_benign_suffix(s, 0);
}

/// From a position where a token may start, token expressions consume the
/// rest of a line without structural characters.
proof fn lemma_benign_suffix(s: Seq<char>, p: nat)
    requires
        p <= s.len(),
        forall|i: int| p <= i < s.len() ==> !is_structural(#[trigger] s[i]),
        skip_separators(s, p) < s.len(),
    ensures
        many(s, p).1 == s.len(),
        many(s, p).0.len() > 0,
    decreases s.len() - p,
{
    let a = skip_separators(s, p);
    lemma_run_end_bounds(s, p, CharClass::Separator);
    assert(class_at(s, a, CharClass::Plain));
    lemma_token_at_plain(s, a);
    lemma_token_bounds(s, a);
    let (t, b) = token(s, a)->0;
    lemma_run_end_bounds(s, b, CharClass::Separator);
    let q = skip_separators(s, b);
    assert(token_expr(s, p) == Some((t, q)));
    if q < s.len() {
        assert(skip_separators(s, q) == q);
        lemma_benign_suffix(s, q);
        assert(many(s, p).1 == many(s, q).1);
    } else {
        lemma_run_end_bounds(s, q, CharClass::Separator);
        lemma_token_bounds(s, q);
        assert(token_expr(s, q) is None);
        assert(many(s, q).1 == q);
    }
}

/// Separators in front of a line are dropped: with them the line tokenizes
/// exactly as it does without them.
pub proof fn lemma_leading_separators_dropped(u: Seq<char>, s: Seq<char>)
    requires
        forall|i: int| 0 <= i < u.len() ==> is_separator(#[trigger] u[i]),
    ensures
        spec_tokenize(u + s) == spec_tokenize(s),
{
    let w = u + s;
    let k = u.len();
    lemma_separators_skipped(w, 0, k);
    assert(token_expr(w, 0) == token_expr(w, k));
    lemma_token_expr_bounds(w, k);
    lemma_many_after_prefix(u, s, 0);
    assert(many(w, 0).0 == many(w, k).0);
    if many(s, 0).0.len() > 0 {
        assert(many(w, 0).1 == many(w, k).1);
    }
}

/// Whitespace after the end of a line is dropped: with it the line tokenizes
/// exactly as it does without it.
pub proof fn lemma_trailing_whitespace_dropped(s: Seq<char>, v: Seq<char>)
    requires
        forall|j: int| 0 <= j < v.len() ==> is_space(#[trigger] v[j]),
    ensures
        spec_tokenize(s + v) == spec_tokenize(s),
{
    lemma_many_before_whitespace(s, v, 0);
    lemma_many_bounds(s, 0);
}

/// Separators before a line and whitespace after it are dropped: `" a  "`,
/// `"a "` and `"a"` tokenize alike, and so does every line with its
/// surroundings.
pub proof fn lemma_surrounding_separators_dropped(u: Seq<char>, s: Seq<char>, v: Seq<char>)
    requires
        forall|i: int| 0 <= i < u.len() ==> is_separator(#[trigger] u[i]),
        forall|j: int| 0 <= j < v.len() ==> is_space(#[trigger] v[j]),
    ensures
        spec_tokenize(u + s + v) == spec_tokenize(s),
{
    assert(u + s + v =~= u + (s + v));
    lemma_leading_separators_dropped(u, s + v);
    lemma_trailing_whitespace_dropped(s, v);
}

/// A separator run read from `i` goes on through `k` when every character
/// between them is a separator.
proof fn lemma_separators_skipped(w: Seq<char>, i: nat, k: nat)
    requires
        i <= k <= w.len(),
        forall|j: int| i <= j < k ==> is_separator(#[trigger] w[j]),
    ensures
        skip_separators(w, i) == skip_separators(w, k),
    decreases k - i,
{
    if i < k {
        lemma_separators_skipped(w, i + 1, k);
    }
}

} // verus!
