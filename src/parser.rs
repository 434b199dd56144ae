//! The composite recognizers and the driver that tokenizes a whole line.
use vstd::prelude::*;
use crate::atoms::{found_view, found_within};
use crate::grammar::{
    CharClass, audit, audit_word, delimited, group, kv_value, kvpair, many, program_pid,
    spec_tokenize, text, token, token_expr, word_at,
};
use crate::line::Line;
use crate::token::{
    ParseError, SpecToken, Token, lemma_view_tokens_len, lemma_view_tokens_push, view_tokens,
};

verus! {

impl<'a> Line<'a> {
    /// `name[pid]`.
    pub fn parse_program_pid(&self, p: usize) -> (r: Option<(Token, usize)>)
        requires
            self.wf(),
            p <= self@.len(),
        ensures
            found_view(r) == program_pid(self@, p as nat),
            found_within(r, p as nat, self@.len()),
    {
        match self.run1_end(p, CharClass::Key) {
            Some(k) => if self.has_char(k, '[') {
                match self.run1_end(k + 1, CharClass::Digit) {
                    Some(i) => if self.has_char(i, ']') {
                        Some((Token::ProgramPid(self.slice(p, k), self.slice(k + 1, i)), i + 1))
                    } else {
                        None
                    },
                    None => None,
                }
            } else {
                None
            },
            None => None,
        }
    }

    /// Whether `audit(` stands at `p`.
    pub fn has_audit_word(&self, p: usize) -> (r: bool)
        requires
            self.wf(),
        ensures
            r == word_at(self@, p as nat, audit_word()),
    {
        if p > self.len() || self.len() - p < 6 {
            return false;
        }
        let r = self.chars[p] == 'a' && self.chars[p + 1] == 'u' && self.chars[p + 2] == 'd'
            && self.chars[p + 3] == 'i' && self.chars[p + 4] == 't' && self.chars[p + 5] == '(';
        proof {
            let t = self@.subrange(p as int, p + 6);
            let w = audit_word();
            if r {
                assert(t =~= w);
            } else if t == w {
                assert(t[0] == w[0] && t[1] == w[1] && t[2] == w[2]);
                assert(t[3] == w[3] && t[4] == w[4] && t[5] == w[5]);
            }
        }
        r
    }

    /// `audit(<float>:<int>)`.
    pub fn parse_audit(&self, p: usize) -> (r: Option<(Token, usize)>)
        requires
            self.wf(),
            p <= self@.len(),
        ensures
            found_view(r) == audit(self@, p as nat),
            found_within(r, p as nat, self@.len()),
    {
        if self.has_audit_word(p) {
            match self.parse_float(p + 6) {
                Some(f) => if self.has_char(f, ':') {
                    match self.run1_end(f + 1, CharClass::Digit) {
                        Some(i) => if self.has_char(i, ')') {
                            Some(
                                (Token::Audit(self.slice(p + 6, f), self.slice(f + 1, i)), i + 1),
                            )
                        } else {
                            None
                        },
                        None => None,
                    }
                } else {
                    None
                },
                None => None,
            }
        } else {
            None
        }
    }

    /// The value of a key, in order: audit, quoted literal, run up to whitespace or a closer, run
    /// up to whitespace.
    pub fn parse_kv_value(&self, p: usize) -> (r: Option<(Token, usize)>)
        requires
            self.wf(),
            p <= self@.len(),
        ensures
            found_view(r) == kv_value(self@, p as nat),
            found_within(r, p as nat, self@.len()),
    {
        let a = self.parse_audit(p);
        if a.is_some() {
            a
        } else if let Some(e) = self.parse_quoted(p) {
            Some((Token::QuotedLiteral(self.slice(p, e)), e))
        } else if let Some(e) = self.run1_end(p, CharClass::Value) {
            Some((Token::Literal(self.slice(p, e)), e))
        } else if let Some(e) = self.run1_end(p, CharClass::NonSpace) {
            Some((Token::Literal(self.slice(p, e)), e))
        } else {
            None
        }
    }

    /// `key=value`.
    pub fn parse_kvpair(&self, p: usize) -> (r: Option<(Token, usize)>)
        requires
            self.wf(),
            p <= self@.len(),
        ensures
            found_view(r) == kvpair(self@, p as nat),
            found_within(r, p as nat, self@.len()),
    {
        match self.run1_end(p, CharClass::Key) {
            Some(k) => if self.has_char(k, '=') {
                match self.parse_kv_value(k + 1) {
                    Some((v, e)) => {
                        let key = Token::Literal(self.slice(p, k));
                        assert(key@ == SpecToken::Literal(text(self@, p as nat, k as nat)));
                        Some((Token::KVPair(Box::new(key), Box::new(v)), e))
                    },
                    None => None,
                }
            } else {
                None
            },
            None => None,
        }
    }

    /// As many token expressions as match from `p` on, and where they end.
    pub fn parse_many(&self, p: usize) -> (r: (Vec<Token>, usize))
        requires
            self.wf(),
            p <= self@.len(),
        ensures
            view_tokens(r.0@) == many(self@, p as nat).0,
            r.1 == many(self@, p as nat).1,
            p <= r.1 <= self@.len(),
        decreases self@.len() - p, 3int,
    {
        let mut out: Vec<Token> = Vec::new();
        let mut q = p;
        loop
            invariant
                self.wf(),
                p <= q <= self@.len(),
                view_tokens(out@) + many(self@, q as nat).0 == many(self@, p as nat).0,
                many(self@, q as nat).1 == many(self@, p as nat).1,
            decreases self@.len() - q,
        {
            match self.parse_token_expr(q) {
                Some((t, e)) => {
                    proof {
                        lemma_view_tokens_push(out@, t);
                        let rest = many(self@, e as nat).0;
                        assert(view_tokens(out@).push(t@) + rest =~= view_tokens(out@) + (seq![
                            t@,
                        ] + rest));
                    }
                    out.push(t);
                    q = e;
                },
                None => {
                    assert(view_tokens(out@) + many(self@, q as nat).0 =~= view_tokens(out@));
                    return (out, q);
                },
            }
        }
    }

    /// Optional separators, a token, optional separators.
    pub fn parse_token_expr(&self, p: usize) -> (r: Option<(Token, usize)>)
        requires
            self.wf(),
            p <= self@.len(),
        ensures
            found_view(r) == token_expr(self@, p as nat),
            found_within(r, p as nat, self@.len()),
        decreases self@.len() - p, 2int,
    {
        let a = self.run_end(p, CharClass::Separator);
        match self.parse_token(a) {
            Some((t, b)) => Some((t, self.run_end(b, CharClass::Separator))),
            None => None,
        }
    }

    /// The token at `p`: composite rules first, then atomic ones.
    pub fn parse_token(&self, p: usize) -> (r: Option<(Token, usize)>)
        requires
            self.wf(),
            p <= self@.len(),
        ensures
            found_view(r) == token(self@, p as nat),
            found_within(r, p as nat, self@.len()),
        decreases self@.len() - p, 1int,
    {
        let g = self.parse_group(p);
        if g.is_some() {
            return g;
        }
        let kv = self.parse_kvpair(p);
        if kv.is_some() {
            return kv;
        }
        let pp = self.parse_program_pid(p);
        if pp.is_some() {
            return pp;
        }
        self.parse_simple(p)
    }

    /// One or more token expressions from `p`, then `close`.
    pub fn parse_delimited(&self, p: usize, close: char) -> (r: Option<(Vec<Token>, usize)>)
        requires
            self.wf(),
            p <= self@.len(),
        ensures
            match r {
                Some((ts, e)) => delimited(self@, p as nat, close) == Some(
                    (view_tokens(ts@), e as nat),
                ) && p < e <= self@.len(),
                None => delimited(self@, p as nat, close) is None,
            },
        decreases self@.len() - p, 4int,
    {
        let (ts, q) = self.parse_many(p);
        proof {
            lemma_view_tokens_len(ts@);
        }
        if ts.len() > 0 && self.has_char(q, close) {
            Some((ts, q + 1))
        } else {
            None
        }
    }

    /// A group in braces, square brackets or parentheses.
    pub fn parse_group(&self, p: usize) -> (r: Option<(Token, usize)>)
        requires
            self.wf(),
            p <= self@.len(),
        ensures
            found_view(r) == group(self@, p as nat),
            found_within(r, p as nat, self@.len()),
        decreases self@.len() - p, 0int,
    {
        if self.has_char(p, '{') {
            match self.parse_delimited(p + 1, '}') {
                Some((ts, e)) => Some((Token::Brace(ts), e)),
                None => None,
            }
        } else if self.has_char(p, '[') {
            let a = self.run_end(p + 1, CharClass::Separator);
            match self.parse_delimited(a, ']') {
                Some((ts, e)) => Some((Token::Bracket(ts), e)),
                None => None,
            }
        } else if self.has_char(p, '(') {
            match self.parse_delimited(p + 1, ')') {
                Some((ts, e)) => Some((Token::Paren(ts), e)),
                None => None,
            }
        } else {
            None
        }
    }
}

/// Tokenizes one line of log text.
///
/// On success the tokens are those of the grammar, in order, and together
/// they consume the whole line; the line is refused exactly when the grammar
/// cannot consume it.
pub fn tokenize(message: &str) -> (r: Result<Vec<Token>, ParseError>)
    ensures
        match r {
            Ok(ts) => spec_tokenize(message@) == Some(view_tokens(ts@)),
            Err(e) => spec_tokenize(message@) is None && e == ParseError::UnparseableInput,
        },
{
    let line = Line::new(message);
    let (ts, e) = line.parse_many(0);
    proof {
        lemma_view_tokens_len(ts@);
    }
    if ts.len() > 0 && e == line.len() {
        Ok(ts)
    } else {
        Err(ParseError::UnparseableInput)
    }
}

} // verus!
