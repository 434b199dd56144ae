//! The rules read only forward: at position `k + x` of `u + s`, where `k` is
//! the length of `u`, they find what they find at position `x` of `s`.
use vstd::prelude::*;
use crate::grammar::{
    CharClass, audit, delimited, exponent_end, float_end, group, hex_digits_at, hex_end,
    hex_groups_at, ipv4_end, octet_end, dot_octet_end, kv_value, kvpair, mac_end, many, program_pid,
    quoted_end, run1_end, run_end, simple_token, skip_separators, text, token, token_expr,
    lemma_run_end_bounds,
};
use crate::lemmas::{
    lemma_float_bounds, lemma_kvpair_bounds, lemma_run1_end_bounds, lemma_simple_bounds,
};
use crate::token::SpecToken;

verus! {

pub open spec fn shift_end(r: Option<nat>, k: nat) -> Option<nat> {
    match r {
        Some(e) => Some(e + k),
        None => None,
    }
}

pub open spec fn shift_found(r: Option<(SpecToken, nat)>, k: nat) -> Option<(SpecToken, nat)> {
    match r {
        Some((t, e)) => Some((t, e + k)),
        None => None,
    }
}

proof fn lemma_shift_run_end(u: Seq<char>, s: Seq<char>, x: nat, cl: CharClass)
    ensures
        run_end(u + s, u.len() + x, cl) == u.len() + run_end(s, x, cl),
    decreases s.len() - x,
{
    if x < s.len() {
        assert((u + s)[(u.len() + x) as int] == s[x as int]);
        lemma_shift_run_end(u, s, x + 1, cl);
    }
}

/// Runs read the same after a prefix.
proof fn lemma_shift_runs(u: Seq<char>, s: Seq<char>)
    ensures
        forall|y: nat, cl: CharClass|
            y >= u.len() ==> #[trigger] run_end(u + s, y, cl) == u.len() + run_end(
                s,
                (y - u.len()) as nat,
                cl,
            ),
{
    assert forall|y: nat, cl: CharClass| y >= u.len() implies #[trigger] run_end(u + s, y, cl)
        == u.len() + run_end(s, (y - u.len()) as nat, cl) by {
        lemma_shift_run_end(u, s, (y - u.len()) as nat, cl);
    }
}

/// Texts read the same after a prefix.
proof fn lemma_shift_texts(u: Seq<char>, s: Seq<char>)
    ensures
        forall|y: nat, z: nat|
            u.len() <= y <= z <= u.len() + s.len() ==> #[trigger] text(u + s, y, z) == text(
                s,
                (y - u.len()) as nat,
                (z - u.len()) as nat,
            ),
{
    let k = u.len();
    assert forall|y: nat, z: nat| k <= y <= z <= k + s.len() implies #[trigger] text(u + s, y, z)
        == text(s, (y - k) as nat, (z - k) as nat) by {
        assert(text(u + s, y, z) =~= text(s, (y - k) as nat, (z - k) as nat));
    }
}

proof fn lemma_shift_hex_digits(u: Seq<char>, s: Seq<char>, x: nat, n: nat)
    ensures
        hex_digits_at(u + s, u.len() + x, n) == hex_digits_at(s, x, n),
{
    let k = u.len();
    let w = u + s;
    if hex_digits_at(w, k + x, n) {
        assert forall|i: int| x <= i < x + n implies crate::grammar::is_hex_digit(
            #[trigger] s[i],
        ) by {
            assert(w[i + k] == s[i]);
        }
    }
    if hex_digits_at(s, x, n) {
        assert forall|i: int| k + x <= i < k + x + n implies crate::grammar::is_hex_digit(
            #[trigger] w[i],
        ) by {
            assert(w[i] == s[i - k]);
        }
    }
}

proof fn lemma_shift_hex_groups(u: Seq<char>, s: Seq<char>, x: nat, n: nat, w: nat, sep: char)
    ensures
        hex_groups_at(u + s, u.len() + x, n, w, sep) == hex_groups_at(s, x, n, w, sep),
    decreases n,
{
    lemma_shift_hex_digits(u, s, x, w);
    if x + w < s.len() {
        assert((u + s)[(u.len() + x + w) as int] == s[(x + w) as int]);
    }
    if n > 1 {
        lemma_shift_hex_groups(u, s, x + w + 1, (n - 1) as nat, w, sep);
    }
}

proof fn lemma_shift_hex(u: Seq<char>, s: Seq<char>, x: nat)
    ensures
        hex_end(u + s, u.len() + x) == shift_end(hex_end(s, x), u.len()),
{
    lemma_shift_run_end(u, s, x + 2, CharClass::HexDigit);
    if x + 1 < s.len() {
        assert((u + s)[(u.len() + x) as int] == s[x as int]);
        assert((u + s)[(u.len() + x + 1) as int] == s[(x + 1) as int]);
    }
}

proof fn lemma_shift_octet(u: Seq<char>, s: Seq<char>, x: nat)
    ensures
        octet_end(u + s, u.len() + x) == shift_end(octet_end(s, x), u.len()),
        dot_octet_end(u + s, u.len() + x) == shift_end(dot_octet_end(s, x), u.len()),
{
    let k = u.len();
    let w = u + s;
    assert forall|i: int| x <= i < s.len() && i <= x + 3 implies w[k + i] == s[i] by {}
}

proof fn lemma_shift_ipv4(u: Seq<char>, s: Seq<char>, x: nat)
    ensures
        ipv4_end(u + s, u.len() + x) == shift_end(ipv4_end(s, x), u.len()),
{
    lemma_shift_octet(u, s, x);
    if let Some(a) = octet_end(s, x) {
        lemma_shift_octet(u, s, a);
        if let Some(b) = dot_octet_end(s, a) {
            lemma_shift_octet(u, s, b);
            if let Some(c) = dot_octet_end(s, b) {
                lemma_shift_octet(u, s, c);
            }
        }
    }
}

proof fn lemma_shift_mac(u: Seq<char>, s: Seq<char>, x: nat)
    ensures
        mac_end(u + s, u.len() + x) == shift_end(mac_end(s, x), u.len()),
{
    lemma_shift_hex_groups(u, s, x, 6, 2, ':');
    lemma_shift_hex_groups(u, s, x, 3, 4, '.');
}

proof fn lemma_shift_exponent(u: Seq<char>, s: Seq<char>, x: nat)
    ensures
        exponent_end(u + s, u.len() + x) == shift_end(exponent_end(s, x), u.len()),
{
    lemma_shift_run_end(u, s, x + 1, CharClass::Digit);
    lemma_shift_run_end(u, s, x + 2, CharClass::Digit);
    if x + 1 < s.len() {
        assert((u + s)[(u.len() + x + 1) as int] == s[(x + 1) as int]);
    }
    if x < s.len() {
        assert((u + s)[(u.len() + x) as int] == s[x as int]);
    }
}

proof fn lemma_shift_float(u: Seq<char>, s: Seq<char>, x: nat)
    ensures
        float_end(u + s, u.len() + x) == shift_end(float_end(s, x), u.len()),
{
    let k = u.len();
    if x < s.len() {
        assert((u + s)[(k + x) as int] == s[x as int]);
    }
    let q = if x < s.len() && (s[x as int] == '-' || s[x as int] == '+') {
        x + 1
    } else {
        x
    };
    lemma_shift_run_end(u, s, q, CharClass::Digit);
    let d = run_end(s, q, CharClass::Digit);
    if d < s.len() {
        assert((u + s)[(k + d) as int] == s[d as int]);
    }
    lemma_shift_run_end(u, s, d + 1, CharClass::Digit);
    let f = run_end(s, d + 1, CharClass::Digit);
    lemma_shift_exponent(u, s, d);
    lemma_shift_exponent(u, s, f);
}

proof fn lemma_shift_quoted(u: Seq<char>, s: Seq<char>, x: nat)
    ensures
        quoted_end(u + s, u.len() + x) == shift_end(quoted_end(s, x), u.len()),
{
    lemma_shift_runs(u, s);
    if x < s.len() {
        assert((u + s)[(u.len() + x) as int] == s[x as int]);
    }
}

proof fn lemma_shift_text(u: Seq<char>, s: Seq<char>, a: nat, b: nat)
    requires
        a <= b <= s.len(),
    ensures
        text(u + s, u.len() + a, u.len() + b) == text(s, a, b),
{
    assert(text(u + s, u.len() + a, u.len() + b) =~= text(s, a, b));
}

#[verifier::rlimit(40)]
proof fn lemma_shift_simple(u: Seq<char>, s: Seq<char>, x: nat)
    requires
        x <= s.len(),
    ensures
        simple_token(u + s, u.len() + x) == shift_found(simple_token(s, x), u.len()),
{
    let k = u.len();
    lemma_shift_run_end(u, s, x, CharClass::Digit);
    lemma_shift_run_end(u, s, x, CharClass::Plain);
    lemma_shift_hex(u, s, x);
    lemma_shift_ipv4(u, s, x);
    lemma_shift_mac(u, s, x);
    lemma_shift_float(u, s, x);
    lemma_shift_quoted(u, s, x);
    lemma_simple_bounds(s, x);
    lemma_run1_end_bounds(s, x, CharClass::Digit);
    lemma_run1_end_bounds(s, x, CharClass::Plain);
    if let Some((t, e)) = simple_token(s, x) {
        lemma_shift_text(u, s, x, e);
    }
}

proof fn lemma_shift_audit(u: Seq<char>, s: Seq<char>, x: nat)
    requires
        x <= s.len(),
    ensures
        audit(u + s, u.len() + x) == shift_found(audit(s, x), u.len()),
{
    let k = u.len();
    let w = u + s;
    lemma_shift_runs(u, s);
    lemma_shift_texts(u, s);
    if x + 6 <= s.len() {
        assert(w.subrange((k + x) as int, (k + x + 6) as int) =~= s.subrange(
            x as int,
            (x + 6) as int,
        ));
        lemma_shift_float(u, s, x + 6);
        lemma_float_bounds(s, x + 6);
        if let Some(f) = float_end(s, x + 6) {
            lemma_run1_end_bounds(s, f + 1, CharClass::Digit);
        }
    }
}

proof fn lemma_shift_kv_value(u: Seq<char>, s: Seq<char>, x: nat)
    requires
        x <= s.len(),
    ensures
        kv_value(u + s, u.len() + x) == shift_found(kv_value(s, x), u.len()),
{
    lemma_shift_runs(u, s);
    lemma_shift_texts(u, s);
    lemma_shift_audit(u, s, x);
    lemma_shift_quoted(u, s, x);
    lemma_kvpair_bounds(s, x);
    lemma_run1_end_bounds(s, x, CharClass::Value);
    lemma_run1_end_bounds(s, x, CharClass::NonSpace);
}

proof fn lemma_shift_kvpair(u: Seq<char>, s: Seq<char>, x: nat)
    requires
        x <= s.len(),
    ensures
        kvpair(u + s, u.len() + x) == shift_found(kvpair(s, x), u.len()),
{
    lemma_shift_run_end(u, s, x, CharClass::Key);
    lemma_run1_end_bounds(s, x, CharClass::Key);
    if let Some(k) = run1_end(s, x, CharClass::Key) {
        if k < s.len() {
            assert((u + s)[(u.len() + k) as int] == s[k as int]);
            lemma_shift_kv_value(u, s, k + 1);
            lemma_shift_text(u, s, x, k);
        }
    }
}

proof fn lemma_shift_program_pid(u: Seq<char>, s: Seq<char>, x: nat)
    requires
        x <= s.len(),
    ensures
        program_pid(u + s, u.len() + x) == shift_found(program_pid(s, x), u.len()),
{
    lemma_shift_run_end(u, s, x, CharClass::Key);
    lemma_run1_end_bounds(s, x, CharClass::Key);
    if let Some(k) = run1_end(s, x, CharClass::Key) {
        if k < s.len() {
            assert((u + s)[(u.len() + k) as int] == s[k as int]);
            lemma_shift_run_end(u, s, k + 1, CharClass::Digit);
            lemma_run1_end_bounds(s, k + 1, CharClass::Digit);
            if let Some(i) = run1_end(s, k + 1, CharClass::Digit) {
                if i < s.len() {
                    assert((u + s)[(u.len() + i) as int] == s[i as int]);
                }
                lemma_shift_text(u, s, x, k);
                lemma_shift_text(u, s, k + 1, i);
            }
        }
    }
}

pub open spec fn shift_many(r: (Seq<SpecToken>, nat), k: nat) -> (Seq<SpecToken>, nat) {
    (r.0, r.1 + k)
}

pub open spec fn shift_delimited(r: Option<(Seq<SpecToken>, nat)>, k: nat) -> Option<
    (Seq<SpecToken>, nat),
> {
    match r {
        Some((ts, e)) => Some((ts, e + k)),
        None => None,
    }
}

proof fn lemma_shift_many(u: Seq<char>, s: Seq<char>, x: nat)
    requires
        x <= s.len(),
    ensures
        many(u + s, u.len() + x) == shift_many(many(s, x), u.len()),
    decreases s.len() - x, 3int,
{
    lemma_shift_token_expr(u, s, x);
    if let Some((t, q)) = token_expr(s, x) {
        if x < q <= s.len() {
            lemma_shift_many(u, s, q);
        }
    }
}

proof fn lemma_shift_token_expr(u: Seq<char>, s: Seq<char>, x: nat)
    requires
        x <= s.len(),
    ensures
        token_expr(u + s, u.len() + x) == shift_found(token_expr(s, x), u.len()),
    decreases s.len() - x, 2int,
{
    lemma_shift_run_end(u, s, x, CharClass::Separator);
    lemma_run_end_bounds(s, x, CharClass::Separator);
    let a = skip_separators(s, x);
    lemma_shift_token(u, s, a);
    if let Some((t, b)) = token(s, a) {
        lemma_shift_run_end(u, s, b, CharClass::Separator);
    }
}

proof fn lemma_shift_token(u: Seq<char>, s: Seq<char>, x: nat)
    requires
        x <= s.len(),
    ensures
        token(u + s, u.len() + x) == shift_found(token(s, x), u.len()),
    decreases s.len() - x, 1int,
{
    lemma_shift_group(u, s, x);
    lemma_shift_kvpair(u, s, x);
    lemma_shift_program_pid(u, s, x);
    lemma_shift_simple(u, s, x);
}

proof fn lemma_shift_delimited(u: Seq<char>, s: Seq<char>, x: nat, close: char)
    requires
        x <= s.len(),
    ensures
        delimited(u + s, u.len() + x, close) == shift_delimited(delimited(s, x, close), u.len()),
    decreases s.len() - x, 4int,
{
    lemma_shift_many(u, s, x);
    let q = many(s, x).1;
    if q < s.len() {
        assert((u + s)[(u.len() + q) as int] == s[q as int]);
    }
}

#[verifier::rlimit(30)]
proof fn lemma_shift_group(u: Seq<char>, s: Seq<char>, x: nat)
    requires
        x <= s.len(),
    ensures
        group(u + s, u.len() + x) == shift_found(group(s, x), u.len()),
    decreases s.len() - x, 0int,
{
    if x < s.len() {
        assert((u + s)[(u.len() + x) as int] == s[x as int]);
        if s[x as int] == '{' {
            lemma_shift_delimited(u, s, x + 1, '}');
        } else if s[x as int] == '[' {
            lemma_shift_run_end(u, s, x + 1, CharClass::Separator);
            lemma_run_end_bounds(s, x + 1, CharClass::Separator);
            lemma_shift_delimited(u, s, skip_separators(s, x + 1), ']');
        } else if s[x as int] == '(' {
            lemma_shift_delimited(u, s, x + 1, ')');
        }
    }
}

/// The tokens found from position `k + x` of `u + s`, where `k` is the length
/// of `u`, are those found from position `x` of `s`; only the end moves.
pub proof fn lemma_many_after_prefix(u: Seq<char>, s: Seq<char>, x: nat)
    requires
        x <= s.len(),
    ensures
        many(u + s, u.len() + x) == shift_many(many(s, x), u.len()),
{
    lemma_shift_many(u, s, x);
}

} // verus!
