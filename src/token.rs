//! The token tree and its mathematical model.
use vstd::prelude::*;

verus! {

/// A token recognized in a line of log text.
#[derive(Debug, PartialEq, Eq)]
///
/// Every text is the exact span of the line that was matched.
pub enum Token {
    /// The tokens between `{` and `}`.
    Brace(Vec<Token>),
    /// The tokens between `[` and `]`.
    Bracket(Vec<Token>),
    /// The tokens between `(` and `)`.
    Paren(Vec<Token>),
    /// `key=value`: the key is a `Literal`; the value an `Audit`, a
    /// `QuotedLiteral` or a `Literal`.
    KVPair(Box<Token>, Box<Token>),
    /// The timestamp and the id of `audit(<timestamp>:<id>)`.
    Audit(String, String),
    /// The name and the pid of `name[pid]`.
    ProgramPid(String, String),
    /// A run of characters that no other rule claims.
    Literal(String),
    /// A span in double or single quotes, quotes included.
    QuotedLiteral(String),
    /// A decimal number with a fractional part or an exponent.
    Float(String),
    /// Unsigned decimal digits.
    Int(String),
    /// Hex digits after `0x` or `0X`, prefix included.
    HexString(String),
    /// A MAC address, colon or dotted form.
    MAC(String),
    /// Four dotted octets from 0 to 255.
    IPv4(String),
}

/// The model of a `Token`: the same tree, with texts as sequences of characters.
pub enum SpecToken {
    Brace(Seq<SpecToken>),
    Bracket(Seq<SpecToken>),
    Paren(Seq<SpecToken>),
    KVPair(Box<SpecToken>, Box<SpecToken>),
    Audit(Seq<char>, Seq<char>),
    ProgramPid(Seq<char>, Seq<char>),
    Literal(Seq<char>),
    QuotedLiteral(Seq<char>),
    Float(Seq<char>),
    Int(Seq<char>),
    HexString(Seq<char>),
    MAC(Seq<char>),
    IPv4(Seq<char>),
}

/// The model of a sequence of tokens, element by element.
pub open spec fn view_tokens(ts: Seq<Token>) -> Seq<SpecToken>
    decreases ts,
{
    if ts.len() == 0 {
        Seq::empty()
    } else {
        view_tokens(ts.drop_last()).push(view_token(ts.last()))
    }
}

/// The model of one token.
pub open spec fn view_token(t: Token) -> SpecToken
    decreases t,
{
    match t {
        Token::Brace(v) => SpecToken::Brace(view_tokens(v@)),
        Token::Bracket(v) => SpecToken::Bracket(view_tokens(v@)),
        Token::Paren(v) => SpecToken::Paren(view_tokens(v@)),
        Token::KVPair(k, v) => SpecToken::KVPair(
            Box::new(view_token(*k)),
            Box::new(view_token(*v)),
        ),
        Token::Audit(a, b) => SpecToken::Audit(a@, b@),
        Token::ProgramPid(a, b) => SpecToken::ProgramPid(a@, b@),
        Token::Literal(a) => SpecToken::Literal(a@),
        Token::QuotedLiteral(a) => SpecToken::QuotedLiteral(a@),
        Token::Float(a) => SpecToken::Float(a@),
        Token::Int(a) => SpecToken::Int(a@),
        Token::HexString(a) => SpecToken::HexString(a@),
        Token::MAC(a) => SpecToken::MAC(a@),
        Token::IPv4(a) => SpecToken::IPv4(a@),
    }
}

/// The model of a sequence has one element for each token.
pub proof fn lemma_view_tokens_len(ts: Seq<Token>)
    ensures
        view_tokens(ts).len() == ts.len(),
    decreases ts.len(),
{
    if ts.len() > 0 {
        lemma_view_tokens_len(ts.drop_last());
    }
}

/// Appending a token appends its model.
pub proof fn lemma_view_tokens_push(ts: Seq<Token>, t: Token)
    ensures
        view_tokens(ts.push(t)) == view_tokens(ts).push(view_token(t)),
{
    assert(ts.push(t).drop_last() =~= ts);
}

impl View for Token {
    type V = SpecToken;

    open spec fn view(&self) -> SpecToken {
        view_token(*self)
    }
}

/// The single way in which tokenizing a line can fail.
#[derive(Debug, PartialEq, Eq)]
pub enum ParseError {
    /// The grammar could not consume the whole line.
    UnparseableInput,
}

} // verus!
