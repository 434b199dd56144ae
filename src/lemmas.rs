//! Facts about the grammar: every match ends after it starts and within the
//! line, and a token always matches where a literal could start.
use vstd::prelude::*;
use crate::grammar::{
    CharClass, audit, class_at, exponent_end, float_end, group, hex_end, hex_groups_at, ipv4_end,
    kv_value, kvpair, mac_end, many, program_pid, quoted_end, run1_end, run_end, simple_token,
    skip_separators, token, token_expr, lemma_run_end_bounds,
};
use crate::token::SpecToken;

verus! {

/// A match found at `p` ends after `p` and within a line of `len` characters.
pub open spec fn end_ok(r: Option<nat>, p: nat, len: nat) -> bool {
    match r {
        Some(e) => p < e <= len,
        None => true,
    }
}

/// A token found at `p` ends after `p` and within a line of `len` characters.
pub open spec fn found_ok(r: Option<(SpecToken, nat)>, p: nat, len: nat) -> bool {
    match r {
        Some((_, e)) => p < e <= len,
        None => true,
    }
}

pub proof fn lemma_run1_end_bounds(s: Seq<char>, p: nat, cl: CharClass)
    ensures
        end_ok(run1_end(s, p, cl), p, s.len()),
{
    lemma_run_end_bounds(s, p, cl);
}

pub proof fn lemma_float_bounds(s: Seq<char>, p: nat)
    requires
        p <= s.len(),
    ensures
        end_ok(exponent_end(s, p), p, s.len()),
        end_ok(float_end(s, p), p, s.len()),
{
    lemma_run1_end_bounds(s, p + 1, CharClass::Digit);
    lemma_run1_end_bounds(s, p + 2, CharClass::Digit);
    let q = if s.len() > p && (s[p as int] == '-' || s[p as int] == '+') {
        p + 1
    } else {
        p
    };
    lemma_run_end_bounds(s, q, CharClass::Digit);
    let d = run_end(s, q, CharClass::Digit);
    lemma_run_end_bounds(s, d + 1, CharClass::Digit);
    let f = run_end(s, d + 1, CharClass::Digit);
    lemma_run1_end_bounds(s, d + 1, CharClass::Digit);
    lemma_run1_end_bounds(s, d + 2, CharClass::Digit);
    lemma_run1_end_bounds(s, f + 1, CharClass::Digit);
    lemma_run1_end_bounds(s, f + 2, CharClass::Digit);
}

pub proof fn lemma_simple_bounds(s: Seq<char>, p: nat)
    requires
        p <= s.len(),
    ensures
        found_ok(simple_token(s, p), p, s.len()),
{
    lemma_run1_end_bounds(s, p + 2, CharClass::HexDigit);
    lemma_run1_end_bounds(s, p, CharClass::Digit);
    lemma_run1_end_bounds(s, p, CharClass::Plain);
    lemma_run_end_bounds(s, p + 1, CharClass::Unquoted(s[p as int]));
    lemma_float_bounds(s, p);
    reveal_with_fuel(hex_groups_at, 6);
    assert(end_ok(hex_end(s, p), p, s.len()));
    assert(end_ok(ipv4_end(s, p), p, s.len()));
    assert(end_ok(mac_end(s, p), p, s.len()));
    assert(end_ok(quoted_end(s, p), p, s.len()));
}

pub proof fn lemma_kvpair_bounds(s: Seq<char>, p: nat)
    requires
        p <= s.len(),
    ensures
        found_ok(kv_value(s, p), p, s.len()),
        found_ok(kvpair(s, p), p, s.len()),
        found_ok(program_pid(s, p), p, s.len()),
{
    lemma_run1_end_bounds(s, p, CharClass::Key);
    lemma_kv_value_bounds(s, p);
    if let Some(k) = run1_end(s, p, CharClass::Key) {
        lemma_run1_end_bounds(s, k + 1, CharClass::Digit);
        if k < s.len() {
            lemma_kv_value_bounds(s, k + 1);
        }
    }
}

proof fn lemma_kv_value_bounds(s: Seq<char>, p: nat)
    requires
        p <= s.len(),
    ensures
        found_ok(kv_value(s, p), p, s.len()),
{
    if p + 6 <= s.len() {
        lemma_float_bounds(s, p + 6);
        if let Some(f) = float_end(s, p + 6) {
            lemma_run1_end_bounds(s, f + 1, CharClass::Digit);
        }
    }
    assert(found_ok(audit(s, p), p, s.len()));
    lemma_run_end_bounds(s, p + 1, CharClass::Unquoted(s[p as int]));
    lemma_run1_end_bounds(s, p, CharClass::Value);
    lemma_run1_end_bounds(s, p, CharClass::NonSpace);
}

/// Token expressions end within the line.
pub proof fn lemma_many_bounds(s: Seq<char>, p: nat)
    requires
        p <= s.len(),
    ensures
        p <= many(s, p).1 <= s.len(),
    decreases s.len() - p,
{
    if let Some((t, q)) = token_expr(s, p) {
        if p < q <= s.len() {
            lemma_many_bounds(s, q);
        }
    }
}

/// A token ends after it starts and within the line.
pub proof fn lemma_token_bounds(s: Seq<char>, p: nat)
    requires
        p <= s.len(),
    ensures
        found_ok(token(s, p), p, s.len()),
{
    lemma_run_end_bounds(s, p + 1, CharClass::Separator);
    if p < s.len() {
        lemma_many_bounds(s, p + 1);
        lemma_many_bounds(s, skip_separators(s, p + 1));
    }
    assert(found_ok(group(s, p), p, s.len()));
    lemma_kvpair_bounds(s, p);
    lemma_simple_bounds(s, p);
}

/// A token expression ends after it starts and within the line.
pub proof fn lemma_token_expr_bounds(s: Seq<char>, p: nat)
    requires
        p <= s.len(),
    ensures
        found_ok(token_expr(s, p), p, s.len()),
{
    lemma_run_end_bounds(s, p, CharClass::Separator);
    let a = skip_separators(s, p);
    lemma_token_bounds(s, a);
    if let Some((t, b)) = token(s, a) {
        lemma_run_end_bounds(s, b, CharClass::Separator);
    }
}

/// Where a literal could start, some token matches.
pub proof fn lemma_token_at_plain(s: Seq<char>, p: nat)
    requires
        class_at(s, p, CharClass::Plain),
    ensures
        token(s, p) is Some,
{
    lemma_run_end_bounds(s, p + 1, CharClass::Plain);
    assert(run1_end(s, p, CharClass::Plain) is Some);
    assert(simple_token(s, p) is Some);
}

} // verus!
