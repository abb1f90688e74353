//! The tokens the reader consumes.
//!
//! Lexing is an external collaborator: the reader takes a finished stream of
//! `(Token, Span)` pairs and never scans characters itself. A number token
//! carries an exact rational value as a plain numerator/denominator pair.

use vstd::prelude::*;
use crate::span::Span;

verus! {

/// An exact rational number: `num / den`.
#[derive(Clone, Copy, PartialEq, Eq, Structural, Debug)]
pub struct Rational {
    pub num: i64,
    pub den: i64,
}

impl Rational {
    /// A rational is well formed when its denominator is positive.
    pub open spec fn wf(self) -> bool {
        self.den > 0
    }

    pub fn new(num: i64, den: i64) -> (r: Rational)
        requires
            den > 0,
        ensures
            r.num == num,
            r.den == den,
            r.wf(),
    {
        Rational { num, den }
    }

    /// The integer `n` as a rational.
    pub fn from_int(n: i64) -> (r: Rational)
        ensures
            r.num == n,
            r.den == 1,
            r.wf(),
    {
        Rational { num: n, den: 1 }
    }
}

/// A token produced by lexing, exactly one of the surface categories of the
/// grammar. Immutable and owned by the token stream.
#[derive(Clone, Debug)]
pub enum Token {
    Symbol(String),
    Number(Rational),
    String(String),
    LParen,
    RParen,
    Quote,
    Backquote,
    Comma,
    CommaAt,
    Period,
}

/// The mathematical value of a token: text fields become character sequences.
pub ghost enum TokenV {
    Symbol(Seq<char>),
    Number(Rational),
    String(Seq<char>),
    LParen,
    RParen,
    Quote,
    Backquote,
    Comma,
    CommaAt,
    Period,
}

impl View for Token {
    type V = TokenV;

    open spec fn view(&self) -> TokenV {
        match self {
            Token::Symbol(s) => TokenV::Symbol(s@),
            Token::Number(r) => TokenV::Number(*r),
            Token::String(s) => TokenV::String(s@),
            Token::LParen => TokenV::LParen,
            Token::RParen => TokenV::RParen,
            Token::Quote => TokenV::Quote,
            Token::Backquote => TokenV::Backquote,
            Token::Comma => TokenV::Comma,
            Token::CommaAt => TokenV::CommaAt,
            Token::Period => TokenV::Period,
        }
    }
}

/// The view of a whole token stream: each token beside its span.
pub open spec fn stream_view(s: Seq<(Token, Span)>) -> Seq<(TokenV, Span)> {
    s.map_values(|p: (Token, Span)| (p.0@, p.1))
}

/// Whether a token can begin an `sexpr` production; used by the top-level
/// resynchronization after an error.
pub open spec fn spec_starts_sexpr(t: TokenV) -> bool {
    match t {
        TokenV::RParen => false,
        TokenV::Period => false,
        _ => true,
    }
}

/// A well-formed token stream, as any lexer produces one: every span is a
/// valid range, and the tokens' spans appear in source order without
/// overlapping.
pub open spec fn wf_stream(toks: Seq<(TokenV, Span)>) -> bool {
    &&& forall|a: int| 0 <= a < toks.len() ==> (#[trigger] toks[a].1).wf()
    &&& forall|a: int, b: int|
        0 <= a < b < toks.len() ==> (#[trigger] toks[a].1).end <= (#[trigger] toks[b].1).start
}

impl Token {
    /// Whether this token can begin an `sexpr` production.
    pub fn starts_sexpr(&self) -> (b: bool)
        ensures
            b == spec_starts_sexpr(self@),
    {
        match self {
            Token::RParen => false,
            Token::Period => false,
            _ => true,
        }
    }
}

} // verus!
