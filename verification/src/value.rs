//! A plain, span-free value model for S-expressions: atoms and cons lists.
//!
//! This shape suits consumers that walk lists head-first; the reader's own
//! output lives in `crate::sexpr`.

use vstd::prelude::*;
use crate::list::List;
use crate::token::Rational;

verus! {

/// A value: an atom, or a cons list of values.
pub enum Sexpr {
    Atom(Atom),
    Cons(Box<List<Sexpr>>),
}

/// An indivisible value: a literal or a symbol.
#[derive(Clone, Debug)]
pub enum Atom {
    Lit(Lit),
    Symbol(String),
}

/// A literal value. Exact numbers are an integer or a rational; inexact
/// (floating-point) literals are not representable here.
#[derive(Clone, Debug)]
pub enum Lit {
    Int(i64),
    Rational(Rational),
    Char(char),
    String(String),
}

} // verus!
