//! The atomic recognizers: hex strings, IPv4 and MAC addresses, numbers,
//! quoted literals and plain literals.
use vstd::prelude::*;
use crate::grammar::{
    CharClass, dot_octet_end, exponent_end, float_end, hex_digits_at, hex_end, hex_groups_at,
    ipv4_end, is_hex_digit, mac_end, octet_end, quoted_end, simple_token,
};
use crate::line::{Line, class_contains, end_view, ends_within};
use crate::token::{SpecToken, Token};

verus! {

/// The model of a token found by exec code, with where it ends.
pub open spec fn found_view(r: Option<(Token, usize)>) -> Option<(SpecToken, nat)> {
    match r {
        Some((t, e)) => Some((t@, e as nat)),
        None => None,
    }
}

/// A token found at `p` ends after `p` and within a line of `len` characters.
pub open spec fn found_within(r: Option<(Token, usize)>, p: nat, len: nat) -> bool {
    match r {
        Some((_, e)) => p < e <= len,
        None => true,
    }
}

impl<'a> Line<'a> {
    /// `0x` or `0X`, then hex digits.
    pub fn parse_hex(&self, p: usize) -> (r: Option<usize>)
        requires
            self.wf(),
        ensures
            end_view(r) == hex_end(self@, p as nat),
            ends_within(r, p as nat, self@.len()),
    {
        if self.has_char(p, '0') && (self.has_char(p + 1, 'x') || self.has_char(p + 1, 'X')) {
            self.run1_end(p + 2, CharClass::HexDigit)
        } else {
            None
        }
    }

    /// An octet from 0 to 255, longer forms first.
    pub fn parse_octet(&self, p: usize) -> (r: Option<usize>)
        requires
            self.wf(),
        ensures
            end_view(r) == octet_end(self@, p as nat),
            ends_within(r, p as nat, self@.len()),
    {
        if self.has_char(p, '2') && self.has_char(p + 1, '5') && self.has_range(p + 2, '0', '5') {
            Some(p + 3)
        } else if self.has_char(p, '2') && self.has_range(p + 1, '0', '4') && self.has_range(
            p + 2,
            '0',
            '9',
        ) {
            Some(p + 3)
        } else if self.has_char(p, '1') && self.has_range(p + 1, '0', '9') && self.has_range(
            p + 2,
            '0',
            '9',
        ) {
            Some(p + 3)
        } else if self.has_range(p, '1', '9') && self.has_range(p + 1, '0', '9') {
            Some(p + 2)
        } else if self.has_range(p, '0', '9') {
            Some(p + 1)
        } else {
            None
        }
    }

    /// A dot, then an octet.
    pub fn parse_dot_octet(&self, p: usize) -> (r: Option<usize>)
        requires
            self.wf(),
        ensures
            end_view(r) == dot_octet_end(self@, p as nat),
            ends_within(r, p as nat, self@.len()),
    {
        if self.has_char(p, '.') {
            self.parse_octet(p + 1)
        } else {
            None
        }
    }

    /// Four octets joined by dots.
    pub fn parse_ipv4(&self, p: usize) -> (r: Option<usize>)
        requires
            self.wf(),
        ensures
            end_view(r) == ipv4_end(self@, p as nat),
            ends_within(r, p as nat, self@.len()),
    {
        match self.parse_octet(p) {
            Some(a) => match self.parse_dot_octet(a) {
                Some(b) => match self.parse_dot_octet(b) {
                    Some(c) => self.parse_dot_octet(c),
                    None => None,
                },
                None => None,
            },
            None => None,
        }
    }

    /// Whether exactly `w` hex digits stand from `p` on.
    pub fn has_hex_digits(&self, p: usize, w: usize) -> (r: bool)
        requires
            self.wf(),
        ensures
            r == hex_digits_at(self@, p as nat, w as nat),
    {
        if p > self.len() || w > self.len() - p {
            return false;
        }
        let mut i: usize = 0;
        while i < w
            invariant
                self.wf(),
                p + w <= self@.len(),
                i <= w,
                forall|j: int| p <= j < p + i ==> is_hex_digit(#[trigger] self@[j]),
            decreases w - i,
        {
            if !class_contains(CharClass::HexDigit, self.chars[p + i]) {
                return false;
            }
            i = i + 1;
        }
        true
    }

    /// Whether `n` groups of `w` hex digits joined by `sep` stand from `p` on.
    pub fn has_hex_groups(&self, p: usize, n: usize, w: usize, sep: char) -> (r: bool)
        requires
            self.wf(),
            p <= self@.len(),
        ensures
            r == hex_groups_at(self@, p as nat, n as nat, w as nat, sep),
        decreases n,
    {
        if !self.has_hex_digits(p, w) {
            false
        } else if n <= 1 {
            true
        } else if !self.has_char(p + w, sep) {
            false
        } else {
            self.has_hex_groups(p + w + 1, n - 1, w, sep)
        }
    }

    /// A MAC address, colon form first, then dotted form.
    pub fn parse_mac(&self, p: usize) -> (r: Option<usize>)
        requires
            self.wf(),
            p <= self@.len(),
        ensures
            end_view(r) == mac_end(self@, p as nat),
            ends_within(r, p as nat, self@.len()),
    {
        if self.has_hex_groups(p, 6, 2, ':') {
            proof {
                reveal_with_fuel(hex_groups_at, 6);
            }
            Some(p + 17)
        } else if self.has_hex_groups(p, 3, 4, '.') {
            proof {
                reveal_with_fuel(hex_groups_at, 3);
            }
            Some(p + 14)
        } else {
            None
        }
    }

    /// An exponent `[eE][-+]?[0-9]+`.
    pub fn parse_exponent(&self, p: usize) -> (r: Option<usize>)
        requires
            self.wf(),
        ensures
            end_view(r) == exponent_end(self@, p as nat),
            ends_within(r, p as nat, self@.len()),
    {
        if self.has_char(p, 'e') || self.has_char(p, 'E') {
            if self.has_char(p + 1, '-') || self.has_char(p + 1, '+') {
                self.run1_end(p + 2, CharClass::Digit)
            } else {
                self.run1_end(p + 1, CharClass::Digit)
            }
        } else {
            None
        }
    }

    /// A float: a fractional part, an exponent, or both.
    pub fn parse_float(&self, p: usize) -> (r: Option<usize>)
        requires
            self.wf(),
            p <= self@.len(),
        ensures
            end_view(r) == float_end(self@, p as nat),
            ends_within(r, p as nat, self@.len()),
    {
        let q = if self.has_char(p, '-') || self.has_char(p, '+') {
            p + 1
        } else {
            p
        };
        let d = self.run_end(q, CharClass::Digit);
        if self.has_char(d, '.') && self.run1_end(d + 1, CharClass::Digit).is_some() {
            let f = self.run_end(d + 1, CharClass::Digit);
            match self.parse_exponent(f) {
                Some(e) => Some(e),
                None => Some(f),
            }
        } else if d > q {
            self.parse_exponent(d)
        } else {
            None
        }
    }

    /// A non-empty span in double or single quotes.
    pub fn parse_quoted(&self, p: usize) -> (r: Option<usize>)
        requires
            self.wf(),
        ensures
            end_view(r) == quoted_end(self@, p as nat),
            ends_within(r, p as nat, self@.len()),
    {
        if self.has_char(p, '"') || self.has_char(p, '\'') {
            let e = self.run_end(p + 1, CharClass::Unquoted(self.chars[p]));
            if e > p + 1 && e < self.len() {
                Some(e + 1)
            } else {
                None
            }
        } else {
            None
        }
    }

    /// The atomic token at `p`, the first rule that matches in order of
    /// precedence.
    pub fn parse_simple(&self, p: usize) -> (r: Option<(Token, usize)>)
        requires
            self.wf(),
            p <= self@.len(),
        ensures
            found_view(r) == simple_token(self@, p as nat),
            found_within(r, p as nat, self@.len()),
    {
        if let Some(e) = self.parse_hex(p) {
            Some((Token::HexString(self.slice(p, e)), e))
        } else if let Some(e) = self.parse_ipv4(p) {
            Some((Token::IPv4(self.slice(p, e)), e))
        } else if let Some(e) = self.parse_mac(p) {
            Some((Token::MAC(self.slice(p, e)), e))
        } else if let Some(e) = self.parse_float(p) {
            Some((Token::Float(self.slice(p, e)), e))
        } else if let Some(e) = self.run1_end(p, CharClass::Digit) {
            Some((Token::Int(self.slice(p, e)), e))
        } else if let Some(e) = self.parse_quoted(p) {
            Some((Token::QuotedLiteral(self.slice(p, e)), e))
        } else if let Some(e) = self.run1_end(p, CharClass::Plain) {
            Some((Token::Literal(self.slice(p, e)), e))
        } else {
            None
        }
    }
}

} // verus!
