//! The grammar of a log line, stated as functions over its characters.
//!
//! Each rule takes the line `s` and a position `p` and says whether the rule
//! matches there, and if so where the match ends (and which token it makes).
//! Alternatives are tried in order and the first match wins; a failed
//! alternative consumes nothing.
use vstd::prelude::*;
use crate::token::SpecToken;

verus! {

/// Whitespace between tokens.
pub open spec fn is_space(c: char) -> bool {
    c == ' ' || c == '\t' || c == '\n' || c == '\r' || c == '\x0C'
}

/// Punctuation that separates tokens on its own.
pub open spec fn is_punctuation(c: char) -> bool {
    c == ';' || c == ':' || c == ','
}

/// A character that starts a separator run.
pub open spec fn is_separator(c: char) -> bool {
    is_space(c) || is_punctuation(c)
}

/// A character that only a composite token may consume at top level.
pub open spec fn is_structural(c: char) -> bool {
    c == '{' || c == '}' || c == '(' || c == ')' || c == '[' || c == ']' || c == '='
}

pub open spec fn is_digit(c: char) -> bool {
    '0' <= c <= '9'
}

pub open spec fn is_hex_digit(c: char) -> bool {
    is_digit(c) || 'a' <= c <= 'f' || 'A' <= c <= 'F'
}

/// A character of a key or of a program name: `[a-zA-Z0-9_-]`.
pub open spec fn is_key_char(c: char) -> bool {
    is_digit(c) || 'a' <= c <= 'z' || 'A' <= c <= 'Z' || c == '_' || c == '-'
}

/// The classes of characters that the grammar consumes in runs.
#[derive(Clone, Copy)]
pub enum CharClass {
    Digit,
    HexDigit,
    Separator,
    Key,
    /// What a literal is made of: neither structural nor a separator.
    Plain,
    /// What a key's value is made of: not a closer and not whitespace.
    Value,
    /// Anything but whitespace.
    NonSpace,
    /// Anything but the given quote character.
    Unquoted(char),
}

pub open spec fn in_class(cl: CharClass, c: char) -> bool {
    match cl {
        CharClass::Digit => is_digit(c),
        CharClass::HexDigit => is_hex_digit(c),
        CharClass::Separator => is_separator(c),
        CharClass::Key => is_key_char(c),
        CharClass::Plain => !is_structural(c) && !is_separator(c),
        CharClass::Value => !(c == '}' || c == ']' || c == ')') && !is_space(c),
        CharClass::NonSpace => !is_space(c),
        CharClass::Unquoted(q) => c != q,
    }
}

/// The line has character `c` at position `i`.
pub open spec fn char_at(s: Seq<char>, i: nat, c: char) -> bool {
    i < s.len() && s[i as int] == c
}

/// The line has a character of class `cl` at position `i`.
pub open spec fn class_at(s: Seq<char>, i: nat, cl: CharClass) -> bool {
    i < s.len() && in_class(cl, s[i as int])
}

/// The line has a character between `lo` and `hi` at position `i`.
pub open spec fn range_at(s: Seq<char>, i: nat, lo: char, hi: char) -> bool {
    i < s.len() && lo <= s[i as int] <= hi
}

/// The line holds `w` from position `p` on.
pub open spec fn word_at(s: Seq<char>, p: nat, w: Seq<char>) -> bool {
    p + w.len() <= s.len() && s.subrange(p as int, (p + w.len()) as int) == w
}

/// The text of the line between two positions.
pub open spec fn text(s: Seq<char>, p: nat, e: nat) -> Seq<char> {
    s.subrange(p as int, e as int)
}

/// The end of the longest run of characters of class `cl` that starts at `p`.
pub open spec fn run_end(s: Seq<char>, p: nat, cl: CharClass) -> nat
    decreases s.len() - p,
{
    if class_at(s, p, cl) {
        run_end(s, p + 1, cl)
    } else {
        p
    }
}

/// The end of a non-empty run of class `cl` at `p`.
pub open spec fn run1_end(s: Seq<char>, p: nat, cl: CharClass) -> Option<nat> {
    if run_end(s, p, cl) > p {
        Some(run_end(s, p, cl))
    } else {
        None
    }
}

/// A run never ends before it starts, nor past the end of the line.
pub proof fn lemma_run_end_bounds(s: Seq<char>, p: nat, cl: CharClass)
    ensures
        p <= run_end(s, p, cl),
        run_end(s, p, cl) == p || run_end(s, p, cl) <= s.len(),
        forall|i: int| p <= i < run_end(s, p, cl) ==> in_class(cl, #[trigger] s[i]),
        !class_at(s, run_end(s, p, cl), cl),
    decreases s.len() - p,
{
    if class_at(s, p, cl) {
        lemma_run_end_bounds(s, p + 1, cl);
    }
}

/// The end of the separator run at `p` (which may be empty).
pub open spec fn skip_separators(s: Seq<char>, p: nat) -> nat {
    run_end(s, p, CharClass::Separator)
}

// ---- Atomic rules ----

/// `0x` or `0X`, then one or more hex digits.
pub open spec fn hex_end(s: Seq<char>, p: nat) -> Option<nat> {
    if char_at(s, p, '0') && (char_at(s, p + 1, 'x') || char_at(s, p + 1, 'X')) {
        run1_end(s, p + 2, CharClass::HexDigit)
    } else {
        None
    }
}

/// An octet from 0 to 255, longer forms tried first:
/// `25[0-5]`, `2[0-4][0-9]`, `1[0-9][0-9]`, `[1-9][0-9]`, `[0-9]`.
pub open spec fn octet_end(s: Seq<char>, p: nat) -> Option<nat> {
    if char_at(s, p, '2') && char_at(s, p + 1, '5') && range_at(s, p + 2, '0', '5') {
        Some(p + 3)
    } else if char_at(s, p, '2') && range_at(s, p + 1, '0', '4') && range_at(
        s,
        p + 2,
        '0',
        '9',
    ) {
        Some(p + 3)
    } else if char_at(s, p, '1') && range_at(s, p + 1, '0', '9') && range_at(
        s,
        p + 2,
        '0',
        '9',
    ) {
        Some(p + 3)
    } else if range_at(s, p, '1', '9') && range_at(s, p + 1, '0', '9') {
        Some(p + 2)
    } else if range_at(s, p, '0', '9') {
        Some(p + 1)
    } else {
        None
    }
}

/// A dot, then an octet.
pub open spec fn dot_octet_end(s: Seq<char>, p: nat) -> Option<nat> {
    if char_at(s, p, '.') {
        octet_end(s, p + 1)
    } else {
        None
    }
}

/// Four octets joined by dots.
pub open spec fn ipv4_end(s: Seq<char>, p: nat) -> Option<nat> {
    match octet_end(s, p) {
        Some(a) => match dot_octet_end(s, a) {
            Some(b) => match dot_octet_end(s, b) {
                Some(c) => dot_octet_end(s, c),
                None => None,
            },
            None => None,
        },
        None => None,
    }
}

/// Exactly `w` hex digits from `p` on.
pub open spec fn hex_digits_at(s: Seq<char>, p: nat, w: nat) -> bool {
    p + w <= s.len() && forall|i: int| p <= i < p + w ==> is_hex_digit(#[trigger] s[i])
}

/// `n` groups of exactly `w` hex digits from `p` on, joined by `sep`.
pub open spec fn hex_groups_at(s: Seq<char>, p: nat, n: nat, w: nat, sep: char) -> bool
    decreases n,
{
    hex_digits_at(s, p, w) && (n <= 1 || (char_at(s, p + w, sep) && hex_groups_at(
        s,
        p + w + 1,
        (n - 1) as nat,
        w,
        sep,
    )))
}

/// A MAC address: six pairs of hex digits joined by colons (17 characters),
/// else three quads of hex digits joined by dots (14 characters).
pub open spec fn mac_end(s: Seq<char>, p: nat) -> Option<nat> {
    if hex_groups_at(s, p, 6, 2, ':') {
        Some(p + 17)
    } else if hex_groups_at(s, p, 3, 4, '.') {
        Some(p + 14)
    } else {
        None
    }
}

/// An exponent `[eE][-+]?[0-9]+`.
pub open spec fn exponent_end(s: Seq<char>, p: nat) -> Option<nat> {
    if char_at(s, p, 'e') || char_at(s, p, 'E') {
        if char_at(s, p + 1, '-') || char_at(s, p + 1, '+') {
            run1_end(s, p + 2, CharClass::Digit)
        } else {
            run1_end(s, p + 1, CharClass::Digit)
        }
    } else {
        None
    }
}

/// A float: an optional sign, then either optional integer digits, a point,
/// one or more fractional digits and an optional exponent, or integer digits
/// with an exponent. A bare integer is no float.
pub open spec fn float_end(s: Seq<char>, p: nat) -> Option<nat> {
    let q = if char_at(s, p, '-') || char_at(s, p, '+') {
        p + 1
    } else {
        p
    };
    let d = run_end(s, q, CharClass::Digit);
    if char_at(s, d, '.') && run1_end(s, d + 1, CharClass::Digit) is Some {
        let f = run_end(s, d + 1, CharClass::Digit);
        match exponent_end(s, f) {
            Some(e) => Some(e),
            None => Some(f),
        }
    } else if d > q {
        exponent_end(s, d)
    } else {
        None
    }
}

/// A span in double or single quotes with at least one character between them.
pub open spec fn quoted_end(s: Seq<char>, p: nat) -> Option<nat> {
    if char_at(s, p, '"') || char_at(s, p, '\'') {
        let e = run_end(s, p + 1, CharClass::Unquoted(s[p as int]));
        if e > p + 1 && e < s.len() {
            Some(e + 1)
        } else {
            None
        }
    } else {
        None
    }
}

/// A token made of the text between `p` and the end of a match.
pub open spec fn atom(
    s: Seq<char>,
    p: nat,
    end: Option<nat>,
    make: spec_fn(Seq<char>) -> SpecToken,
) -> Option<(SpecToken, nat)> {
    match end {
        Some(e) => Some((make(text(s, p, e)), e)),
        None => None,
    }
}

/// The atomic tokens, in order of precedence: hex string, IPv4 address, MAC
/// address, float, integer, quoted literal, and the literal that takes
/// whatever no other rule claims.
pub open spec fn simple_token(s: Seq<char>, p: nat) -> Option<(SpecToken, nat)> {
    if hex_end(s, p) is Some {
        atom(s, p, hex_end(s, p), |t| SpecToken::HexString(t))
    } else if ipv4_end(s, p) is Some {
        atom(s, p, ipv4_end(s, p), |t| SpecToken::IPv4(t))
    } else if mac_end(s, p) is Some {
        atom(s, p, mac_end(s, p), |t| SpecToken::MAC(t))
    } else if float_end(s, p) is Some {
        atom(s, p, float_end(s, p), |t| SpecToken::Float(t))
    } else if run1_end(s, p, CharClass::Digit) is Some {
        atom(s, p, run1_end(s, p, CharClass::Digit), |t| SpecToken::Int(t))
    } else if quoted_end(s, p) is Some {
        atom(s, p, quoted_end(s, p), |t| SpecToken::QuotedLiteral(t))
    } else {
        atom(s, p, run1_end(s, p, CharClass::Plain), |t| SpecToken::Literal(t))
    }
}

// ---- Composite rules ----

/// A program name, then an integer in square brackets: `name[pid]`.
pub open spec fn program_pid(s: Seq<char>, p: nat) -> Option<(SpecToken, nat)> {
    match run1_end(s, p, CharClass::Key) {
        Some(k) => if char_at(s, k, '[') {
            match run1_end(s, k + 1, CharClass::Digit) {
                Some(i) => if char_at(s, i, ']') {
                    Some((SpecToken::ProgramPid(text(s, p, k), text(s, k + 1, i)), i + 1))
                } else {
                    None
                },
                None => None,
            }
        } else {
            None
        },
        None => None,
    }
}

/// The characters of `audit(`.
pub open spec fn audit_word() -> Seq<char> {
    seq!['a', 'u', 'd', 'i', 't', '(']
}

/// `audit(<float>:<int>)`, which keeps the timestamp and the id.
pub open spec fn audit(s: Seq<char>, p: nat) -> Option<(SpecToken, nat)> {
    if word_at(s, p, audit_word()) {
        match float_end(s, p + 6) {
            Some(f) => if char_at(s, f, ':') {
                match run1_end(s, f + 1, CharClass::Digit) {
                    Some(i) => if char_at(s, i, ')') {
                        Some((SpecToken::Audit(text(s, p + 6, f), text(s, f + 1, i)), i + 1))
                    } else {
                        None
                    },
                    None => None,
                }
            } else {
                None
            },
            None => None,
        }
    } else {
        None
    }
}

/// The value of a key: an audit construct, a quoted literal, a run of
/// characters up to whitespace or a closer, or else a run up to whitespace.
pub open spec fn kv_value(s: Seq<char>, p: nat) -> Option<(SpecToken, nat)> {
    if audit(s, p) is Some {
        audit(s, p)
    } else if quoted_end(s, p) is Some {
        atom(s, p, quoted_end(s, p), |t| SpecToken::QuotedLiteral(t))
    } else if run1_end(s, p, CharClass::Value) is Some {
        atom(s, p, run1_end(s, p, CharClass::Value), |t| SpecToken::Literal(t))
    } else {
        atom(s, p, run1_end(s, p, CharClass::NonSpace), |t| SpecToken::Literal(t))
    }
}

/// `key=value`.
pub open spec fn kvpair(s: Seq<char>, p: nat) -> Option<(SpecToken, nat)> {
    match run1_end(s, p, CharClass::Key) {
        Some(k) => if char_at(s, k, '=') {
            match kv_value(s, k + 1) {
                Some((v, e)) => Some(
                    (
                        SpecToken::KVPair(
                            Box::new(SpecToken::Literal(text(s, p, k))),
                            Box::new(v),
                        ),
                        e,
                    ),
                ),
                None => None,
            }
        } else {
            None
        },
        None => None,
    }
}

/// Zero or more token expressions from `p` on, as many as match; and where
/// they end. A token expression always ends after it starts and within the
/// line (`lemmas::lemma_token_expr_bounds`); the test on `q` only lets the
/// definition terminate.
pub open spec fn many(s: Seq<char>, p: nat) -> (Seq<SpecToken>, nat)
    decreases s.len() - p, 3int,
{
    match token_expr(s, p) {
        Some((t, q)) => if p < q <= s.len() {
            let (ts, r) = many(s, q);
            (seq![t] + ts, r)
        } else {
            (seq![], p)
        },
        None => (seq![], p),
    }
}

/// Optional separators, a token, optional separators.
pub open spec fn token_expr(s: Seq<char>, p: nat) -> Option<(SpecToken, nat)>
    decreases s.len() - p, 2int,
{
    proof {
        lemma_run_end_bounds(s, p, CharClass::Separator);
    }
    match token(s, skip_separators(s, p)) {
        Some((t, b)) => Some((t, skip_separators(s, b))),
        None => None,
    }
}

/// A token: the composite rules first (groups, key-value pair, program and
/// pid), then the atomic ones.
pub open spec fn token(s: Seq<char>, p: nat) -> Option<(SpecToken, nat)>
    decreases s.len() - p, 1int,
{
    if group(s, p) is Some {
        group(s, p)
    } else if kvpair(s, p) is Some {
        kvpair(s, p)
    } else if program_pid(s, p) is Some {
        program_pid(s, p)
    } else {
        simple_token(s, p)
    }
}

/// One or more token expressions from `p`, then the `close` character.
pub open spec fn delimited(s: Seq<char>, p: nat, close: char) -> Option<(Seq<SpecToken>, nat)>
    decreases s.len() - p, 4int,
{
    let (ts, q) = many(s, p);
    if ts.len() > 0 && char_at(s, q, close) {
        Some((ts, q + 1))
    } else {
        None
    }
}

/// A group in braces, square brackets or parentheses. Inside square brackets
/// a separator run may come first.
pub open spec fn group(s: Seq<char>, p: nat) -> Option<(SpecToken, nat)>
    decreases s.len() - p, 0int,
{
    if char_at(s, p, '{') {
        match delimited(s, p + 1, '}') {
            Some((ts, e)) => Some((SpecToken::Brace(ts), e)),
            None => None,
        }
    } else if char_at(s, p, '[') {
        proof {
            lemma_run_end_bounds(s, p + 1, CharClass::Separator);
        }
        match delimited(s, skip_separators(s, p + 1), ']') {
            Some((ts, e)) => Some((SpecToken::Bracket(ts), e)),
            None => None,
        }
    } else if char_at(s, p, '(') {
        match delimited(s, p + 1, ')') {
            Some((ts, e)) => Some((SpecToken::Paren(ts), e)),
            None => None,
        }
    } else {
        None
    }
}

/// The tokens of a whole line: one or more token expressions that together
/// consume every character; `None` where the line cannot be consumed.
pub open spec fn spec_tokenize(s: Seq<char>) -> Option<Seq<SpecToken>> {
    let (ts, e) = many(s, 0);
    if ts.len() > 0 && e == s.len() {
        Some(ts)
    } else {
        None
    }
}

} // verus!
