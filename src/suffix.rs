//! Whitespace after the end of a line changes no rule's outcome: on `s + v`,
//! where `v` is whitespace, each rule finds at a position of `s` what it finds
//! on `s`, except that a run of separators, or a quoted span that is never
//! closed, now reaches the end of `v`.
use vstd::prelude::*;
use crate::grammar::{
    CharClass, audit, delimited, dot_octet_end, exponent_end, float_end, group, hex_digits_at,
    hex_end, hex_groups_at, in_class, ipv4_end, is_space, kv_value, kvpair, mac_end, many,
    octet_end, program_pid, quoted_end, run1_end, run_end, simple_token, skip_separators, text,
    token, token_expr, lemma_run_end_bounds,
};
use crate::lemmas::{
    lemma_float_bounds, lemma_kvpair_bounds, lemma_many_bounds, lemma_run1_end_bounds,
    lemma_simple_bounds, lemma_token_bounds, lemma_token_expr_bounds,
};
use crate::token::SpecToken;

verus! {

/// Every character of `v` is whitespace.
pub open spec fn all_space(v: Seq<char>) -> bool {
    forall|j: int| 0 <= j < v.len() ==> is_space(#[trigger] v[j])
}

/// A class with no whitespace in it.
pub open spec fn stops_at_space(cl: CharClass) -> bool {
    match cl {
        CharClass::Separator => false,
        CharClass::Unquoted(_) => false,
        _ => true,
    }
}

/// A class that holds either every whitespace character or none.
pub open spec fn space_uniform(cl: CharClass) -> bool {
    match cl {
        CharClass::Unquoted(q) => !is_space(q),
        _ => true,
    }
}

/// An end found on `s`, as found on `s + v`: one at the end of `s` moves to
/// the end of `s + v`.
pub open spec fn stretch(e: nat, s: Seq<char>, v: Seq<char>) -> nat {
    if e == s.len() {
        s.len() + v.len()
    } else {
        e
    }
}

pub open spec fn stretch_found(r: Option<(SpecToken, nat)>, s: Seq<char>, v: Seq<char>) -> Option<
    (SpecToken, nat),
> {
    match r {
        Some((t, e)) => Some((t, stretch(e, s, v))),
        None => None,
    }
}

proof fn lemma_space_class(cl: CharClass, c: char)
    requires
        is_space(c),
        space_uniform(cl),
    ensures
        in_class(cl, c) <==> !stops_at_space(cl),
{
}

/// Past the end of `s`, a run goes to the end of `v` or nowhere.
proof fn lemma_append_run_tail(s: Seq<char>, v: Seq<char>, y: nat, cl: CharClass)
    requires
        all_space(v),
        space_uniform(cl),
        s.len() <= y <= s.len() + v.len(),
    ensures
        run_end(s + v, y, cl) == if stops_at_space(cl) {
            y
        } else {
            s.len() + v.len()
        },
    decreases s.len() + v.len() - y,
{
    if y < s.len() + v.len() {
        assert((s + v)[y as int] == v[y - s.len()]);
        lemma_space_class(cl, v[y - s.len()]);
        if !stops_at_space(cl) {
            lemma_append_run_tail(s, v, y + 1, cl);
        }
    }
}

proof fn lemma_append_run_end(s: Seq<char>, v: Seq<char>, x: nat, cl: CharClass)
    requires
        all_space(v),
        space_uniform(cl),
        x <= s.len(),
    ensures
        run_end(s + v, x, cl) == appended_run_end(s, v, x, cl),
    decreases s.len() - x,
{
    if x < s.len() {
        assert((s + v)[x as int] == s[x as int]);
        lemma_append_run_end(s, v, x + 1, cl);
        lemma_run_end_bounds(s, x + 1, cl);
    } else {
        lemma_append_run_tail(s, v, x, cl);
    }
}

/// The end of a run on `s + v`, from what it is on `s`.
pub open spec fn appended_run_end(s: Seq<char>, v: Seq<char>, x: nat, cl: CharClass) -> nat {
    if stops_at_space(cl) {
        run_end(s, x, cl)
    } else {
        stretch(run_end(s, x, cl), s, v)
    }
}

/// Past the end of `s`, no character but whitespace stands.
proof fn lemma_append_chars(s: Seq<char>, v: Seq<char>)
    requires
        all_space(v),
    ensures
        forall|i: int| 0 <= i < s.len() ==> #[trigger] (s + v)[i] == s[i],
        forall|i: int| s.len() <= i < s.len() + v.len() ==> is_space(#[trigger] (s + v)[i]),
{
    assert forall|i: int| s.len() <= i < s.len() + v.len() implies is_space(
        #[trigger] (s + v)[i],
    ) by {
        assert((s + v)[i] == v[i - s.len()]);
    }
}

proof fn lemma_append_text(s: Seq<char>, v: Seq<char>, a: nat, b: nat)
    requires
        a <= b <= s.len(),
    ensures
        text(s + v, a, b) == text(s, a, b),
{
    assert(text(s + v, a, b) =~= text(s, a, b));
}

proof fn lemma_append_hex_digits(s: Seq<char>, v: Seq<char>, x: nat, n: nat)
    requires
        all_space(v),
        x <= s.len(),
    ensures
        hex_digits_at(s + v, x, n) == hex_digits_at(s, x, n),
{
    lemma_append_chars(s, v);
    if hex_digits_at(s + v, x, n) && !hex_digits_at(s, x, n) {
        if x + n > s.len() {
            let i = s.len() as int;
            assert(crate::grammar::is_hex_digit((s + v)[i]));
        } else {
            assert forall|i: int| x <= i < x + n implies crate::grammar::is_hex_digit(
                #[trigger] s[i],
            ) by {
                assert((s + v)[i] == s[i]);
            }
        }
    }
    if hex_digits_at(s, x, n) {
        assert forall|i: int| x <= i < x + n implies crate::grammar::is_hex_digit(
            #[trigger] (s + v)[i],
        ) by {
            assert((s + v)[i] == s[i]);
        }
    }
}

proof fn lemma_append_hex_groups(s: Seq<char>, v: Seq<char>, x: nat, n: nat, w: nat, sep: char)
    requires
        all_space(v),
        !is_space(sep),
        x <= s.len(),
    ensures
        hex_groups_at(s + v, x, n, w, sep) == hex_groups_at(s, x, n, w, sep),
    decreases n,
{
    lemma_append_chars(s, v);
    lemma_append_hex_digits(s, v, x, w);
    if n > 1 && x + w < s.len() {
        lemma_append_hex_groups(s, v, x + w + 1, (n - 1) as nat, w, sep);
    }
}

proof fn lemma_append_numbers(s: Seq<char>, v: Seq<char>, x: nat)
    requires
        all_space(v),
        x <= s.len(),
    ensures
        hex_end(s + v, x) == hex_end(s, x),
        ipv4_end(s + v, x) == ipv4_end(s, x),
        mac_end(s + v, x) == mac_end(s, x),
        float_end(s + v, x) == float_end(s, x),
{
    lemma_append_hex(s, v, x);
    lemma_append_ipv4(s, v, x);
    lemma_append_hex_groups(s, v, x, 6, 2, ':');
    lemma_append_hex_groups(s, v, x, 3, 4, '.');
    lemma_append_float(s, v, x);
}

proof fn lemma_append_hex(s: Seq<char>, v: Seq<char>, x: nat)
    requires
        all_space(v),
        x <= s.len(),
    ensures
        hex_end(s + v, x) == hex_end(s, x),
{
    lemma_append_chars(s, v);
    if x + 2 <= s.len() {
        lemma_append_run_end(s, v, x + 2, CharClass::HexDigit);
    }
}

proof fn lemma_append_octet(s: Seq<char>, v: Seq<char>, x: nat)
    requires
        all_space(v),
    ensures
        octet_end(s + v, x) == octet_end(s, x),
        dot_octet_end(s + v, x) == dot_octet_end(s, x),
{
    lemma_append_chars(s, v);
}

proof fn lemma_append_ipv4(s: Seq<char>, v: Seq<char>, x: nat)
    requires
        all_space(v),
    ensures
        ipv4_end(s + v, x) == ipv4_end(s, x),
{
    lemma_append_octet(s, v, x);
    if let Some(a) = octet_end(s, x) {
        lemma_append_octet(s, v, a);
        if let Some(b) = dot_octet_end(s, a) {
            lemma_append_octet(s, v, b);
            if let Some(c) = dot_octet_end(s, b) {
                lemma_append_octet(s, v, c);
            }
        }
    }
}

proof fn lemma_append_float(s: Seq<char>, v: Seq<char>, x: nat)
    requires
        all_space(v),
        x <= s.len(),
    ensures
        float_end(s + v, x) == float_end(s, x),
{
    lemma_append_chars(s, v);
    let q = if x < s.len() && (s[x as int] == '-' || s[x as int] == '+') {
        x + 1
    } else {
        x
    };
    lemma_append_run_end(s, v, q, CharClass::Digit);
    lemma_run_end_bounds(s, q, CharClass::Digit);
    let d = run_end(s, q, CharClass::Digit);
    lemma_append_exponent(s, v, d);
    if d < s.len() {
        lemma_append_run_end(s, v, d + 1, CharClass::Digit);
        lemma_run_end_bounds(s, d + 1, CharClass::Digit);
        lemma_append_exponent(s, v, run_end(s, d + 1, CharClass::Digit));
    }
}

proof fn lemma_append_exponent(s: Seq<char>, v: Seq<char>, x: nat)
    requires
        all_space(v),
        x <= s.len(),
    ensures
        exponent_end(s + v, x) == exponent_end(s, x),
{
    lemma_append_chars(s, v);
    if x + 1 <= s.len() {
        lemma_append_run_end(s, v, x + 1, CharClass::Digit);
    }
    if x + 2 <= s.len() {
        lemma_append_run_end(s, v, x + 2, CharClass::Digit);
    }
}

proof fn lemma_append_quoted(s: Seq<char>, v: Seq<char>, x: nat)
    requires
        all_space(v),
        x <= s.len(),
    ensures
        quoted_end(s + v, x) == quoted_end(s, x),
{
    lemma_append_chars(s, v);
    if x < s.len() && (s[x as int] == '"' || s[x as int] == '\'') {
        lemma_append_run_end(s, v, x + 1, CharClass::Unquoted(s[x as int]));
        lemma_run_end_bounds(s, x + 1, CharClass::Unquoted(s[x as int]));
    }
}

#[verifier::rlimit(40)]
proof fn lemma_append_simple(s: Seq<char>, v: Seq<char>, x: nat)
    requires
        all_space(v),
        x <= s.len(),
    ensures
        simple_token(s + v, x) == simple_token(s, x),
{
    lemma_append_numbers(s, v, x);
    lemma_append_quoted(s, v, x);
    lemma_append_run_end(s, v, x, CharClass::Digit);
    lemma_append_run_end(s, v, x, CharClass::Plain);
    lemma_simple_bounds(s, x);
    if let Some((t, e)) = simple_token(s, x) {
        lemma_append_text(s, v, x, e);
    }
}

proof fn lemma_append_kv_value(s: Seq<char>, v: Seq<char>, x: nat)
    requires
        all_space(v),
        x <= s.len(),
    ensures
        kv_value(s + v, x) == kv_value(s, x),
{
    lemma_append_chars(s, v);
    lemma_append_quoted(s, v, x);
    lemma_append_run_end(s, v, x, CharClass::Value);
    lemma_append_run_end(s, v, x, CharClass::NonSpace);
    lemma_kvpair_bounds(s, x);
    if x + 6 <= s.len() {
        assert((s + v).subrange(x as int, (x + 6) as int) =~= s.subrange(x as int, (x + 6) as int));
        lemma_append_numbers(s, v, x + 6);
        lemma_float_bounds(s, x + 6);
        if let Some(f) = float_end(s, x + 6) {
            if f < s.len() {
                lemma_append_run_end(s, v, f + 1, CharClass::Digit);
                lemma_run1_end_bounds(s, f + 1, CharClass::Digit);
                if let Some(i) = run1_end(s, f + 1, CharClass::Digit) {
                    lemma_append_text(s, v, x + 6, f);
                    lemma_append_text(s, v, f + 1, i);
                }
            }
        }
    } else {
        assert(!crate::grammar::word_at(s, x, crate::grammar::audit_word()));
        if x + 6 <= s.len() + v.len() {
            let t = (s + v).subrange(x as int, (x + 6) as int);
            let i = s.len() - x;
            assert(t[i] == (s + v)[s.len() as int]);
            if t == crate::grammar::audit_word() {
                assert(t[i] != ' ');
            }
        }
    }
    assert(audit(s + v, x) == audit(s, x));
    if let Some((t, e)) = kv_value(s, x) {
        lemma_append_text(s, v, x, e);
    }
}

proof fn lemma_append_keyed(s: Seq<char>, v: Seq<char>, x: nat)
    requires
        all_space(v),
        x <= s.len(),
    ensures
        kvpair(s + v, x) == kvpair(s, x),
        program_pid(s + v, x) == program_pid(s, x),
{
    lemma_append_chars(s, v);
    lemma_append_run_end(s, v, x, CharClass::Key);
    lemma_run1_end_bounds(s, x, CharClass::Key);
    if let Some(k) = run1_end(s, x, CharClass::Key) {
        lemma_append_text(s, v, x, k);
        if k < s.len() {
            lemma_append_kv_value(s, v, k + 1);
            lemma_append_run_end(s, v, k + 1, CharClass::Digit);
            lemma_run1_end_bounds(s, k + 1, CharClass::Digit);
            if let Some(i) = run1_end(s, k + 1, CharClass::Digit) {
                lemma_append_text(s, v, k + 1, i);
            }
        }
    }
}

/// What `many` finds on `s + v`: the same tokens; where it took some, an end
/// at the end of `s` moves to the end of `v`.
pub open spec fn stretch_many(r: (Seq<SpecToken>, nat), s: Seq<char>, v: Seq<char>) -> (
    Seq<SpecToken>,
    nat,
) {
    if r.0.len() > 0 {
        (r.0, stretch(r.1, s, v))
    } else {
        r
    }
}

proof fn lemma_nothing_at_end(s: Seq<char>)
    ensures
        token_expr(s, s.len()) is None,
        many(s, s.len()) == (Seq::<SpecToken>::empty(), s.len()),
{
    lemma_run_end_bounds(s, s.len(), CharClass::Separator);
    lemma_token_bounds(s, s.len());
    assert(many(s, s.len()).0 =~= Seq::<SpecToken>::empty());
}

proof fn lemma_append_many(s: Seq<char>, v: Seq<char>, x: nat)
    requires
        all_space(v),
        x <= s.len(),
    ensures
        many(s + v, x) == stretch_many(many(s, x), s, v),
    decreases s.len() - x, 3int,
{
    lemma_append_token_expr(s, v, x);
    lemma_token_expr_bounds(s, x);
    if let Some((t, q)) = token_expr(s, x) {
        if q < s.len() {
            lemma_append_many(s, v, q);
            assert(seq![t] + many(s, q).0 =~= many(s, x).0);
        } else {
            lemma_nothing_at_end(s);
            lemma_nothing_at_end(s + v);
            assert(seq![t] + Seq::<SpecToken>::empty() =~= seq![t]);
        }
    }
}

proof fn lemma_append_token_expr(s: Seq<char>, v: Seq<char>, x: nat)
    requires
        all_space(v),
        x <= s.len(),
    ensures
        token_expr(s + v, x) == stretch_found(token_expr(s, x), s, v),
    decreases s.len() - x, 2int,
{
    lemma_append_run_end(s, v, x, CharClass::Separator);
    lemma_run_end_bounds(s, x, CharClass::Separator);
    let a = skip_separators(s, x);
    lemma_append_token(s, v, a);
    lemma_token_bounds(s, a);
    lemma_token_bounds(s + v, s.len() + v.len());
    if let Some((t, b)) = token(s, a) {
        lemma_append_run_end(s, v, b, CharClass::Separator);
    }
}

proof fn lemma_append_token(s: Seq<char>, v: Seq<char>, x: nat)
    requires
        all_space(v),
        x <= s.len(),
    ensures
        token(s + v, x) == token(s, x),
    decreases s.len() - x, 1int,
{
    lemma_append_group(s, v, x);
    lemma_append_keyed(s, v, x);
    lemma_append_simple(s, v, x);
}

proof fn lemma_append_delimited(s: Seq<char>, v: Seq<char>, x: nat, close: char)
    requires
        all_space(v),
        x <= s.len(),
        !is_space(close),
    ensures
        delimited(s + v, x, close) == delimited(s, x, close),
    decreases s.len() - x, 4int,
{
    lemma_append_chars(s, v);
    lemma_append_many(s, v, x);
    lemma_many_bounds(s, x);
    if many(s, x).1 < s.len() {
        assert((s + v)[many(s, x).1 as int] == s[many(s, x).1 as int]);
    }
}

proof fn lemma_append_group(s: Seq<char>, v: Seq<char>, x: nat)
    requires
        all_space(v),
        x <= s.len(),
    ensures
        group(s + v, x) == group(s, x),
    decreases s.len() - x, 0int,
{
    lemma_append_chars(s, v);
    if x < s.len() {
        lemma_append_delimited(s, v, x + 1, '}');
        lemma_append_delimited(s, v, x + 1, ')');
        lemma_append_run_end(s, v, x + 1, CharClass::Separator);
        lemma_run_end_bounds(s, x + 1, CharClass::Separator);
        if skip_separators(s, x + 1) < s.len() {
            lemma_append_delimited(s, v, skip_separators(s, x + 1), ']');
        } else {
            lemma_token_bounds(s + v, s.len() + v.len());
            lemma_token_bounds(s, s.len());
            lemma_run_end_bounds(s + v, s.len() + v.len(), CharClass::Separator);
            lemma_run_end_bounds(s, s.len(), CharClass::Separator);
        }
    }
}

/// The tokens found from a position of `s` on `s + v`, where `v` is
/// whitespace, are those found on `s`; where some were found, an end at the
/// end of `s` moves to the end of `v`.
pub proof fn lemma_many_before_whitespace(s: Seq<char>, v: Seq<char>, x: nat)
    requires
        all_space(v),
        x <= s.len(),
    ensures
        many(s + v, x) == stretch_many(many(s, x), s, v),
{
    lemma_append_many(s, v, x);
}

} // verus!
