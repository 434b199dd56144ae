//! A line of text held both as a string and as a vector of its characters.
use vstd::prelude::*;
use vstd::string::*;
use crate::grammar::{CharClass, char_at, class_at, in_class, range_at, run_end, run1_end};

verus! {

/// The model of the end of a match found by exec code.
pub open spec fn end_view(r: Option<usize>) -> Option<nat> {
    match r {
        Some(e) => Some(e as nat),
        None => None,
    }
}

/// A match found at `p` ends after `p` and within a line of `len` characters.
pub open spec fn ends_within(r: Option<usize>, p: nat, len: nat) -> bool {
    match r {
        Some(e) => p < e <= len,
        None => true,
    }
}

/// Whether `c` belongs to class `cl`.
pub fn class_contains(cl: CharClass, c: char) -> (r: bool)
    ensures
        r == in_class(cl, c),
{
    match cl {
        CharClass::Digit => '0' <= c && c <= '9',
        CharClass::HexDigit => ('0' <= c && c <= '9') || ('a' <= c && c <= 'f') || ('A' <= c
            && c <= 'F'),
        CharClass::Separator => is_space_char(c) || c == ';' || c == ':' || c == ',',
        CharClass::Key => ('0' <= c && c <= '9') || ('a' <= c && c <= 'z') || ('A' <= c && c
            <= 'Z') || c == '_' || c == '-',
        CharClass::Plain => !(c == '{' || c == '}' || c == '(' || c == ')' || c == '[' || c
            == ']' || c == '=') && !(is_space_char(c) || c == ';' || c == ':' || c == ','),
        CharClass::Value => !(c == '}' || c == ']' || c == ')') && !is_space_char(c),
        CharClass::NonSpace => !is_space_char(c),
        CharClass::Unquoted(q) => c != q,
    }
}

fn is_space_char(c: char) -> (r: bool)
    ensures
        r == crate::grammar::is_space(c),
{
    c == ' ' || c == '\t' || c == '\n' || c == '\r' || c == '\x0C'
}

/// The line being tokenized: its text, and its characters for constant-time access.
pub struct Line<'a> {
    pub text: &'a str,
    pub chars: Vec<char>,
}

impl<'a> View for Line<'a> {
    type V = Seq<char>;

    open spec fn view(&self) -> Seq<char> {
        self.text@
    }
}

impl<'a> Line<'a> {
    /// The two representations agree, and every position fits in a `usize`.
    pub open spec fn wf(&self) -> bool {
        &&& self.chars@ == self.text@
        &&& self.chars@.len() <= usize::MAX
    }

    pub fn new(text: &'a str) -> (r: Line<'a>)
        ensures
            r.wf(),
            r.text == text,
    {
        broadcast use vstd::string::group_string_axioms;

        let mut chars: Vec<char> = Vec::new();
        for c in it: text.chars()
            invariant
                it.seq() == text@,
                chars@ == it.seq().take(it.index() as int),
        {
            chars.push(c);
        }
        assert(chars@ =~= text@);
        let _ = chars.len();
        Line { text, chars }
    }

    /// The number of characters of the line.
    pub fn len(&self) -> (r: usize)
        requires
            self.wf(),
        ensures
            r == self.view().len(),
    {
        self.chars.len()
    }

    /// Whether the character at `i` is `c`.
    pub fn has_char(&self, i: usize, c: char) -> (r: bool)
        requires
            self.wf(),
        ensures
            r == char_at(self.view(), i as nat, c),
    {
        i < self.chars.len() && self.chars[i] == c
    }

    /// Whether the character at `i` lies between `lo` and `hi`.
    pub fn has_range(&self, i: usize, lo: char, hi: char) -> (r: bool)
        requires
            self.wf(),
        ensures
            r == range_at(self.view(), i as nat, lo, hi),
    {
        i < self.chars.len() && lo <= self.chars[i] && self.chars[i] <= hi
    }

    /// Whether the character at `i` belongs to class `cl`.
    pub fn has_class(&self, i: usize, cl: CharClass) -> (r: bool)
        requires
            self.wf(),
        ensures
            r == class_at(self.view(), i as nat, cl),
    {
        i < self.chars.len() && class_contains(cl, self.chars[i])
    }

    /// The end of the longest run of class `cl` from `p`.
    pub fn run_end(&self, p: usize, cl: CharClass) -> (r: usize)
        requires
            self.wf(),
        ensures
            r == run_end(self.view(), p as nat, cl),
            p <= r,
            r == p || r <= self.view().len(),
    {
        let mut i = p;
        while i < self.chars.len() && class_contains(cl, self.chars[i])
            invariant
                self.wf(),
                p <= i,
                i == p || i <= self.view().len(),
                run_end(self.view(), i as nat, cl) == run_end(self.view(), p as nat, cl),
            decreases self.view().len() - i,
        {
            i = i + 1;
        }
        i
    }

    /// The end of a non-empty run of class `cl` from `p`.
    pub fn run1_end(&self, p: usize, cl: CharClass) -> (r: Option<usize>)
        requires
            self.wf(),
        ensures
            end_view(r) == run1_end(self.view(), p as nat, cl),
            ends_within(r, p as nat, self.view().len()),
    {
        let e = self.run_end(p, cl);
        if e > p {
            Some(e)
        } else {
            None
        }
    }

    /// The text between two character positions.
    pub fn slice(&self, from: usize, to: usize) -> (r: String)
        requires
            self.wf(),
            from <= to <= self.view().len(),
        ensures
            r@ == self.view().subrange(from as int, to as int),
    {
        self.text.substring_char(from, to).to_owned()
    }
}

} // verus!
