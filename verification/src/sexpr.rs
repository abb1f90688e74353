//! The S-expression tree the reader produces.
//!
//! A `Sexpr` is an atom, a proper list of one or more spanned elements, or a
//! dotted pair. A `Root` owns the top-level forms of one source unit. The
//! tree is a strict forest: every node exclusively owns its children.

use vstd::prelude::*;
use crate::span::{Span, SrcNode};
use crate::token::Rational;

verus! {

/// A leaf value: a symbol, an exact rational number, or a string literal.
#[derive(Clone, Debug)]
pub enum Atom {
    Symbol(String),
    Number(Rational),
    String(String),
}

/// The recursive tree node.
pub enum Sexpr {
    /// A leaf.
    Atom(Atom),
    /// A proper list of one or more elements; the grammar never yields an
    /// empty `List`.
    List(Vec<SrcNode<Sexpr>>),
    /// A dotted pair, produced only by explicit dotted-pair syntax.
    Pair(Box<Pair>),
}

/// A dotted pair: a cons cell whose tail need not be a list.
pub struct Pair {
    pub head: SrcNode<Sexpr>,
    pub tail: SrcNode<Sexpr>,
}

impl Pair {
    pub fn new(head: SrcNode<Sexpr>, tail: SrcNode<Sexpr>) -> (p: Pair)
        ensures
            p.head == head,
            p.tail == tail,
    {
        Pair { head, tail }
    }

    pub fn head(&self) -> (h: &SrcNode<Sexpr>)
        ensures
            h == &self.head,
    {
        &self.head
    }

    pub fn tail(&self) -> (t: &SrcNode<Sexpr>)
        ensures
            t == &self.tail,
    {
        &self.tail
    }
}

/// The ordered top-level forms read from one source unit, with the span
/// covering them.
pub struct Root {
    pub forms: Vec<SrcNode<Sexpr>>,
    pub span: Span,
}

/// A cons-cell shaped view of a sequence of spanned forms; kept beside the
/// vector-shaped `Sexpr::List` for consumers that walk head/tail style.
pub enum List {
    Proper { head: SrcNode<Sexpr>, tail: Box<List> },
    Nil,
}

/// The mathematical value of an atom.
pub ghost enum AtomV {
    Symbol(Seq<char>),
    Number(Rational),
    String(Seq<char>),
}

/// The mathematical value of a spanned tree node.
pub ghost struct SrcNodeV {
    pub val: SexprV,
    pub span: Span,
}

/// The mathematical value of a tree node.
pub ghost enum SexprV {
    Atom(AtomV),
    List(Seq<SrcNodeV>),
    Pair(Box<SrcNodeV>, Box<SrcNodeV>),
}

/// The mathematical value of a root.
pub ghost struct RootV {
    pub forms: Seq<SrcNodeV>,
    pub span: Span,
}

impl View for Atom {
    type V = AtomV;

    open spec fn view(&self) -> AtomV {
        match self {
            Atom::Symbol(s) => AtomV::Symbol(s@),
            Atom::Number(r) => AtomV::Number(*r),
            Atom::String(s) => AtomV::String(s@),
        }
    }
}

/// The value of a tree node, recursively.
pub open spec fn sexpr_view(e: Sexpr) -> SexprV
    decreases e,
{
    match e {
        Sexpr::Atom(a) => SexprV::Atom(a@),
        Sexpr::List(v) => SexprV::List(nodes_view(v@)),
        Sexpr::Pair(p) => SexprV::Pair(
            Box::new(node_view(p.head)),
            Box::new(node_view(p.tail)),
        ),
    }
}

/// The value of a spanned node.
pub open spec fn node_view(n: SrcNode<Sexpr>) -> SrcNodeV
    decreases n,
{
    SrcNodeV { val: sexpr_view(n.value), span: n.span }
}

/// The values of a sequence of spanned nodes.
pub open spec fn nodes_view(s: Seq<SrcNode<Sexpr>>) -> Seq<SrcNodeV>
    decreases s,
{
    if s.len() == 0 {
        Seq::empty()
    } else {
        seq![node_view(s[0])] + nodes_view(s.drop_first())
    }
}

impl View for Sexpr {
    type V = SexprV;

    open spec fn view(&self) -> SexprV {
        sexpr_view(*self)
    }
}

impl View for SrcNode<Sexpr> {
    type V = SrcNodeV;

    open spec fn view(&self) -> SrcNodeV {
        node_view(*self)
    }
}

impl View for Root {
    type V = RootV;

    open spec fn view(&self) -> RootV {
        RootV { forms: nodes_view(self.forms@), span: self.span }
    }
}

/// Span containment: a node's span fully contains the span of each of its
/// children, recursively.
pub open spec fn node_contained(n: SrcNodeV) -> bool
    decreases n,
{
    match n.val {
        SexprV::Atom(_) => true,
        SexprV::List(cs) => forall|k: int|
            0 <= k < cs.len() ==> ((#[trigger] cs[k]).span.inside(n.span) && node_contained(
                cs[k],
            )),
        SexprV::Pair(h, t) => {
            &&& h.span.inside(n.span)
            &&& t.span.inside(n.span)
            &&& node_contained(*h)
            &&& node_contained(*t)
        },
    }
}

/// `nodes_view` maps the sequence pointwise.
pub proof fn lemma_nodes_view_len(s: Seq<SrcNode<Sexpr>>)
    ensures
        nodes_view(s).len() == s.len(),
        forall|i: int| 0 <= i < s.len() ==> nodes_view(s)[i] == node_view(s[i]),
    decreases s,
{
    if s.len() > 0 {
        lemma_nodes_view_len(s.drop_first());
    }
}

/// Appending one node extends the view by that node's value.
pub proof fn lemma_nodes_view_push(s: Seq<SrcNode<Sexpr>>, n: SrcNode<Sexpr>)
    ensures
        nodes_view(s.push(n)) == nodes_view(s) + seq![node_view(n)],
    decreases s,
{
    if s.len() == 0 {
        assert(s.push(n)[0] == n);
        assert(s.push(n).drop_first() =~= Seq::empty());
        assert(nodes_view(s.push(n).drop_first()) =~= Seq::empty());
        assert(nodes_view(s.push(n)) =~= nodes_view(s) + seq![node_view(n)]);
    } else {
        lemma_nodes_view_push(s.drop_first(), n);
        assert(s.push(n)[0] == s[0]);
        assert(s.push(n).drop_first() =~= s.drop_first().push(n));
        assert(nodes_view(s.push(n)) =~= nodes_view(s) + seq![node_view(n)]);
    }
}

} // verus!
