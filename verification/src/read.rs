//! The S-expression reader: a recursive-descent parser over a stream of
//! spanned tokens.
//!
//! The grammar is
//!
//! ```text
//! sexpr  := atom | list | dotted | quote | quasiquote | unquote | unquote-splice
//! atom   := SYMBOL | NUMBER | STRING
//! list   := LParen sexpr+ RParen
//! dotted := LParen sexpr+ Period sexpr RParen
//! root   := sexpr*
//! ```
//!
//! The `list` production requires at least one element: `()` is not a form,
//! and reading it reports an unexpected token at the closing delimiter.
//!
//! The two parenthesis-leading productions are recognised in a single pass:
//! after the opening delimiter the reader collects `sexpr+`, then commits to a
//! list on a closing delimiter and to a dotted pair on a period. Quote-family
//! markers desugar to canonical two-element lists at read time. Every
//! rejection becomes a `Diagnostic`; at top level the reader resynchronizes by
//! skipping to the next token that can begin an `sexpr`, so one malformed form
//! does not suppress later well-formed ones.
//!
//! The whole reader is mirrored by spec-level functions (`sp_sexpr`,
//! `sp_elems`, `sp_paren`, `sp_root`); `read` returns exactly what they
//! describe, for every finite token stream.

use vstd::prelude::*;
use vstd::string::StringExecFns;
use crate::span::{Span, SrcNode};
use crate::token::{Token, TokenV, stream_view, spec_starts_sexpr};
use crate::sexpr::{Atom, AtomV, Sexpr, SexprV, Pair, Root, SrcNodeV, nodes_view,
    node_view, sexpr_view, lemma_nodes_view_len, lemma_nodes_view_push};

verus! {

/// What kind of parse error a diagnostic reports.
#[derive(Clone, Copy, PartialEq, Eq, Structural, Debug)]
pub enum DiagnosticKind {
    /// An error propagated from the token source.
    LexicalError,
    /// A token appeared where no grammar alternative accepts it.
    UnexpectedToken,
    /// Input ended while a list, dotted or quote form was still open.
    UnterminatedForm,
    /// A period without exactly one following `sexpr` before the closing
    /// delimiter.
    MalformedDottedForm,
}

/// A recoverable parse error, located by a span.
#[derive(Clone, Copy, PartialEq, Eq, Structural, Debug)]
pub struct Diagnostic {
    pub kind: DiagnosticKind,
    pub span: Span,
}

impl Diagnostic {
    pub fn new(kind: DiagnosticKind, span: Span) -> (d: Diagnostic)
        ensures
            d.kind == kind,
            d.span == span,
    {
        Diagnostic { kind, span }
    }

    /// A diagnostic for an error the token source reported; the reader itself
    /// never produces this kind, it only carries it for the lexing layer.
    pub fn lexical(span: Span) -> (d: Diagnostic)
        ensures
            d.kind == DiagnosticKind::LexicalError,
            d.span == span,
    {
        Diagnostic { kind: DiagnosticKind::LexicalError, span }
    }

    /// The human-readable message for this diagnostic's kind.
    pub open spec fn spec_message(kind: DiagnosticKind) -> Seq<char> {
        match kind {
            DiagnosticKind::LexicalError => "lexical error"@,
            DiagnosticKind::UnexpectedToken => "unexpected token"@,
            DiagnosticKind::UnterminatedForm => "unterminated form"@,
            DiagnosticKind::MalformedDottedForm => "malformed dotted form"@,
        }
    }

    pub fn message(&self) -> (m: &'static str)
        ensures
            m@ == Diagnostic::spec_message(self.kind),
    {
        match self.kind {
            DiagnosticKind::LexicalError => "lexical error",
            DiagnosticKind::UnexpectedToken => "unexpected token",
            DiagnosticKind::UnterminatedForm => "unterminated form",
            DiagnosticKind::MalformedDottedForm => "malformed dotted form",
        }
    }
}

/// The outcome of parsing one `sexpr` at a position: a node and the position
/// after it, or a diagnostic and the position recovery continues from.
pub ghost enum PSexpr {
    Found { node: SrcNodeV, next: int },
    Fail { diag: Diagnostic, next: int },
}

/// The outcome of collecting `sexpr*` inside a delimited form: the elements
/// and the position of the stopping token (closing delimiter, period or end
/// of input), or the first element's failure.
pub ghost enum PElems {
    Stop { elems: Seq<SrcNodeV>, next: int },
    Fail { diag: Diagnostic, next: int },
}

/// The outcome of reading a whole source unit.
pub ghost struct PRoot {
    pub forms: Seq<SrcNodeV>,
    pub diags: Seq<Diagnostic>,
}

/// The symbol a quote-family marker desugars to.
pub open spec fn quote_name(t: TokenV) -> Seq<char> {
    match t {
        TokenV::Quote => "quote"@,
        TokenV::Backquote => "quasiquote"@,
        TokenV::Comma => "unquote"@,
        TokenV::CommaAt => "unquote-splice"@,
        _ => Seq::empty(),
    }
}

/// Parse one `sexpr` starting at `i`.
pub open spec fn sp_sexpr(toks: Seq<(TokenV, Span)>, eoi: Span, i: int) -> PSexpr
    decreases toks.len() - i, 1int,
{
    if i < 0 || i >= toks.len() {
        PSexpr::Fail {
            diag: Diagnostic { kind: DiagnosticKind::UnterminatedForm, span: eoi },
            next: i,
        }
    } else {
        match toks[i].0 {
            TokenV::Symbol(s) => PSexpr::Found {
                node: SrcNodeV { val: SexprV::Atom(AtomV::Symbol(s)), span: toks[i].1 },
                next: i + 1,
            },
            TokenV::Number(r) => PSexpr::Found {
                node: SrcNodeV { val: SexprV::Atom(AtomV::Number(r)), span: toks[i].1 },
                next: i + 1,
            },
            TokenV::String(s) => PSexpr::Found {
                node: SrcNodeV { val: SexprV::Atom(AtomV::String(s)), span: toks[i].1 },
                next: i + 1,
            },
            TokenV::LParen => sp_paren(toks, eoi, i),
            TokenV::RParen => PSexpr::Fail {
                diag: Diagnostic { kind: DiagnosticKind::UnexpectedToken, span: toks[i].1 },
                next: i + 1,
            },
            TokenV::Period => PSexpr::Fail {
                diag: Diagnostic { kind: DiagnosticKind::UnexpectedToken, span: toks[i].1 },
                next: i + 1,
            },
            _ => sp_quote(toks, eoi, i),
        }
    }
}

/// Desugar a quote-family marker at `i`: `'E` becomes
/// `List[Atom(Symbol("quote")), E]`, the marker's span on the symbol and the
/// merge of marker and inner spans on the list.
pub open spec fn sp_quote(toks: Seq<(TokenV, Span)>, eoi: Span, i: int) -> PSexpr
    decreases toks.len() - i, 0int,
{
    if i < 0 || i >= toks.len() {
        PSexpr::Fail {
            diag: Diagnostic { kind: DiagnosticKind::UnterminatedForm, span: eoi },
            next: i,
        }
    } else {
        match sp_sexpr(toks, eoi, i + 1) {
            PSexpr::Fail { diag, next } => PSexpr::Fail { diag, next },
            PSexpr::Found { node, next } => {
                let marker = SrcNodeV {
                    val: SexprV::Atom(AtomV::Symbol(quote_name(toks[i].0))),
                    span: toks[i].1,
                };
                PSexpr::Found {
                    node: SrcNodeV {
                        val: SexprV::List(seq![marker, node]),
                        span: Span::spec_merge(toks[i].1, node.span),
                    },
                    next,
                }
            },
        }
    }
}

/// Parse the remainder of a parenthesised form whose `LParen` stands at `i`:
/// a proper list `(e1 .. en)` or a dotted pair `(e1 .. en . t)`. With more
/// than one leading element the elements collapse into a proper list that
/// becomes the head of a single pair.
pub open spec fn sp_paren(toks: Seq<(TokenV, Span)>, eoi: Span, i: int) -> PSexpr
    decreases toks.len() - i, 0int,
{
    if i < 0 || i >= toks.len() {
        PSexpr::Fail {
            diag: Diagnostic { kind: DiagnosticKind::UnterminatedForm, span: eoi },
            next: i,
        }
    } else {
        match sp_elems(toks, eoi, i + 1) {
        PElems::Fail { diag, next } => PSexpr::Fail { diag, next },
        PElems::Stop { elems, next } => {
            let j = if next >= i + 1 { next } else { i + 1 };
            if j >= toks.len() {
                PSexpr::Fail {
                    diag: Diagnostic { kind: DiagnosticKind::UnterminatedForm, span: eoi },
                    next: j,
                }
            } else if elems.len() == 0 {
                PSexpr::Fail {
                    diag: Diagnostic { kind: DiagnosticKind::UnexpectedToken, span: toks[j].1 },
                    next: j + 1,
                }
            } else if toks[j].0 is RParen {
                PSexpr::Found {
                    node: SrcNodeV {
                        val: SexprV::List(elems),
                        span: Span::spec_merge(toks[i].1, toks[j].1),
                    },
                    next: j + 1,
                }
            } else if j + 1 >= toks.len() {
                PSexpr::Fail {
                    diag: Diagnostic { kind: DiagnosticKind::UnterminatedForm, span: eoi },
                    next: j + 1,
                }
            } else if toks[j + 1].0 is RParen {
                PSexpr::Fail {
                    diag: Diagnostic {
                        kind: DiagnosticKind::MalformedDottedForm,
                        span: toks[j + 1].1,
                    },
                    next: j + 2,
                }
            } else {
                match sp_sexpr(toks, eoi, j + 1) {
                    PSexpr::Fail { diag, next } => PSexpr::Fail { diag, next },
                    PSexpr::Found { node: tail, next: k } => {
                        if k >= toks.len() {
                            PSexpr::Fail {
                                diag: Diagnostic {
                                    kind: DiagnosticKind::UnterminatedForm,
                                    span: eoi,
                                },
                                next: k,
                            }
                        } else if toks[k].0 is RParen {
                            let head = if elems.len() == 1 {
                                elems[0]
                            } else {
                                SrcNodeV {
                                    val: SexprV::List(elems),
                                    span: Span::spec_merge(elems[0].span, elems.last().span),
                                }
                            };
                            PSexpr::Found {
                                node: SrcNodeV {
                                    val: SexprV::Pair(Box::new(head), Box::new(tail)),
                                    span: Span::spec_merge(
                                        Span::spec_merge(toks[i].1, toks[k].1),
                                        Span::spec_merge(head.span, tail.span),
                                    ),
                                },
                                next: k + 1,
                            }
                        } else {
                            PSexpr::Fail {
                                diag: Diagnostic {
                                    kind: DiagnosticKind::MalformedDottedForm,
                                    span: toks[k].1,
                                },
                                next: k,
                            }
                        }
                    },
                }
            }
        },
        }
    }
}

/// The position parsing continues from after a sub-parse that began at `i`
/// reported `next`: always strictly past `i` and never past the end of the
/// stream. The sub-parses only ever report such positions, so this merely
/// makes progress plain.
pub open spec fn adv_to(i: int, next: int, n: int) -> int {
    let j = if next > i { next } else { i + 1 };
    if j > n { n } else { j }
}

/// Collect `sexpr*` from `i` up to the first closing delimiter, period or the
/// end of input, without consuming the stopping token.
pub open spec fn sp_elems(toks: Seq<(TokenV, Span)>, eoi: Span, i: int) -> PElems
    decreases toks.len() - i, 2int,
{
    if i < 0 || i >= toks.len() {
        PElems::Stop { elems: Seq::empty(), next: i }
    } else {
        match toks[i].0 {
            TokenV::RParen => PElems::Stop { elems: Seq::empty(), next: i },
            TokenV::Period => PElems::Stop { elems: Seq::empty(), next: i },
            _ => match sp_sexpr(toks, eoi, i) {
                PSexpr::Fail { diag, next } => PElems::Fail { diag, next },
                PSexpr::Found { node, next } => {
                    let j = adv_to(i, next, toks.len() as int);
                    match sp_elems(toks, eoi, j) {
                        PElems::Fail { diag, next } => PElems::Fail { diag, next },
                        PElems::Stop { elems, next } => PElems::Stop {
                            elems: seq![node] + elems,
                            next,
                        },
                    }
                },
            },
        }
    }
}

/// The position of the next token at or after `i` that can begin an `sexpr`;
/// top-level error recovery resumes there.
pub open spec fn sp_skip(toks: Seq<(TokenV, Span)>, i: int) -> int
    decreases toks.len() - i,
{
    if i < 0 || i >= toks.len() {
        i
    } else if spec_starts_sexpr(toks[i].0) {
        i
    } else {
        sp_skip(toks, i + 1)
    }
}

/// Read top-level forms from `i` to the end of input, collecting successes
/// and diagnostics side by side.
pub open spec fn sp_root(toks: Seq<(TokenV, Span)>, eoi: Span, i: int) -> PRoot
    decreases toks.len() - i, 3int,
{
    if i < 0 || i >= toks.len() {
        PRoot { forms: Seq::empty(), diags: Seq::empty() }
    } else {
        match sp_sexpr(toks, eoi, i) {
            PSexpr::Found { node, next } => {
                let j = adv_to(i, next, toks.len() as int);
                let rest = sp_root(toks, eoi, j);
                PRoot { forms: seq![node] + rest.forms, diags: rest.diags }
            },
            PSexpr::Fail { diag, next } => {
                let j0 = adv_to(i, next, toks.len() as int);
                let j = adv_to(i, sp_skip(toks, j0), toks.len() as int);
                let rest = sp_root(toks, eoi, j);
                PRoot { forms: rest.forms, diags: seq![diag] + rest.diags }
            },
        }
    }
}

/// The span of a whole source unit: the merge of the first and last top-level
/// forms' spans, or the empty span at position zero.
pub open spec fn sp_root_span(forms: Seq<SrcNodeV>) -> Span {
    if forms.len() == 0 {
        Span { start: 0, end: 0 }
    } else {
        Span::spec_merge(forms[0].span, forms.last().span)
    }
}

/// Prepend already-collected element values to a collection outcome.
pub open spec fn pe_prepend(pre: Seq<SrcNodeV>, r: PElems) -> PElems {
    match r {
        PElems::Stop { elems, next } => PElems::Stop { elems: pre + elems, next },
        PElems::Fail { diag, next } => PElems::Fail { diag, next },
    }
}

/// A token and its view sit in the same variant.
proof fn lemma_tok_variant(t: Token)
    ensures
        t@ is LParen <==> t is LParen,
        t@ is RParen <==> t is RParen,
        t@ is Period <==> t is Period,
{
}

/// Parse one `sexpr` starting at position `i`; returns the node and the
/// position after it, or a diagnostic and the position recovery continues
/// from. Returns exactly what `sp_sexpr` describes.
fn parse_sexpr(toks: &Vec<(Token, Span)>, eoi: Span, i: usize) -> (r: Result<
    (SrcNode<Sexpr>, usize),
    (Diagnostic, usize),
>)
    requires
        i <= toks@.len(),
    ensures
        match r {
            Ok(p) => {
                &&& sp_sexpr(stream_view(toks@), eoi, i as int) == (PSexpr::Found {
                    node: p.0@,
                    next: p.1 as int,
                })
                &&& i < p.1 <= toks@.len()
            },
            Err(e) => {
                &&& sp_sexpr(stream_view(toks@), eoi, i as int) == (PSexpr::Fail {
                    diag: e.0,
                    next: e.1 as int,
                })
                &&& i <= e.1 <= toks@.len()
            },
        },
    decreases toks@.len() - i, 1int,
{
    let ghost tv = stream_view(toks@);
    if i == toks.len() {
        return Err((Diagnostic::new(DiagnosticKind::UnterminatedForm, eoi), i));
    }
    let t = &toks[i];
    let t_span = t.1;
    proof {
        assert(tv[i as int] == (toks@[i as int].0@, toks@[i as int].1));
    }
    match &t.0 {
        Token::Symbol(s) => {
            let node = SrcNode::new(Sexpr::Atom(Atom::Symbol(s.clone())), t_span);
            Ok((node, i + 1))
        },
        Token::Number(q) => {
            let node = SrcNode::new(Sexpr::Atom(Atom::Number(*q)), t_span);
            Ok((node, i + 1))
        },
        Token::String(s) => {
            let node = SrcNode::new(Sexpr::Atom(Atom::String(s.clone())), t_span);
            Ok((node, i + 1))
        },
        Token::LParen => parse_paren(toks, eoi, i),
        Token::RParen => Err((Diagnostic::new(DiagnosticKind::UnexpectedToken, t_span), i + 1)),
        Token::Period => Err((Diagnostic::new(DiagnosticKind::UnexpectedToken, t_span), i + 1)),
        _ => {
            let name: &str = match &t.0 {
                Token::Quote => "quote",
                Token::Backquote => "quasiquote",
                Token::Comma => "unquote",
                Token::CommaAt => "unquote-splice",
                _ => "",
            };
            proof {
                assert(name@ == quote_name(tv[i as int].0));
            }
            match parse_sexpr(toks, eoi, i + 1) {
                Err(e) => Err(e),
                Ok((inner, j)) => {
                    let inner_span = inner.span;
                    let marker = SrcNode::new(
                        Sexpr::Atom(Atom::Symbol(String::from_str(name))),
                        t_span,
                    );
                    let ghost markerv = marker@;
                    let ghost innerv = inner@;
                    let mut items: Vec<SrcNode<Sexpr>> = Vec::new();
                    items.push(marker);
                    items.push(inner);
                    let node = SrcNode::new(Sexpr::List(items), t_span.extend(inner_span));
                    proof {
                        lemma_nodes_view_len(node.value->List_0@);
                        assert(nodes_view(node.value->List_0@) =~= seq![markerv, innerv]);
                    }
                    Ok((node, j))
                },
            }
        },
    }
}

/// Parse a parenthesised form whose opening delimiter stands at `i`.
/// Returns exactly what `sp_paren` describes.
fn parse_paren(toks: &Vec<(Token, Span)>, eoi: Span, i: usize) -> (r: Result<
    (SrcNode<Sexpr>, usize),
    (Diagnostic, usize),
>)
    requires
        i < toks@.len(),
        toks@[i as int].0 is LParen,
    ensures
        match r {
            Ok(p) => {
                &&& sp_paren(stream_view(toks@), eoi, i as int) == (PSexpr::Found {
                    node: p.0@,
                    next: p.1 as int,
                })
                &&& i < p.1 <= toks@.len()
            },
            Err(e) => {
                &&& sp_paren(stream_view(toks@), eoi, i as int) == (PSexpr::Fail {
                    diag: e.0,
                    next: e.1 as int,
                })
                &&& i <= e.1 <= toks@.len()
            },
        },
    decreases toks@.len() - i, 0int,
{
    let ghost tv = stream_view(toks@);
    let len = toks.len();
    let lparen_span = toks[i].1;
    proof {
        assert(tv[i as int] == (toks@[i as int].0@, toks@[i as int].1));
    }
    match parse_elems(toks, eoi, i + 1) {
        Err(e) => Err(e),
        Ok((elems, j)) => {
            if j == len {
                return Err((Diagnostic::new(DiagnosticKind::UnterminatedForm, eoi), j));
            }
            let stop_span = toks[j].1;
            proof {
                assert(tv[j as int] == (toks@[j as int].0@, toks@[j as int].1));
                lemma_tok_variant(toks@[j as int].0);
            }
            if elems.len() == 0 {
                return Err((Diagnostic::new(DiagnosticKind::UnexpectedToken, stop_span), j + 1));
            }
            match &toks[j].0 {
                Token::RParen => {
                    proof {
                        lemma_nodes_view_len(elems@);
                    }
                    let node = SrcNode::new(Sexpr::List(elems), lparen_span.extend(stop_span));
                    Ok((node, j + 1))
                },
                Token::Period => {
                    if j + 1 == len {
                        return Err((Diagnostic::new(DiagnosticKind::UnterminatedForm, eoi), j + 1));
                    }
                    proof {
                        assert(tv[j as int + 1] == (toks@[j as int + 1].0@, toks@[j as int + 1].1));
                        lemma_tok_variant(toks@[j as int + 1].0);
                    }
                    let after = &toks[j + 1];
                    if matches!(&after.0, Token::RParen) {
                        return Err((
                            Diagnostic::new(DiagnosticKind::MalformedDottedForm, after.1),
                            j + 2,
                        ));
                    }
                    match parse_sexpr(toks, eoi, j + 1) {
                        Err(e) => Err(e),
                        Ok((tail, k)) => {
                            if k == len {
                                return Err((
                                    Diagnostic::new(DiagnosticKind::UnterminatedForm, eoi),
                                    k,
                                ));
                            }
                            proof {
                                assert(tv[k as int] == (toks@[k as int].0@, toks@[k as int].1));
                                lemma_tok_variant(toks@[k as int].0);
                            }
                            let closer = &toks[k];
                            if !matches!(&closer.0, Token::RParen) {
                                return Err((
                                    Diagnostic::new(DiagnosticKind::MalformedDottedForm, closer.1),
                                    k,
                                ));
                            }
                            let rparen_span = closer.1;
                            let tail_span = tail.span;
                            proof {
                                lemma_nodes_view_len(elems@);
                            }
                            let head: SrcNode<Sexpr> = if elems.len() == 1 {
                                let mut elems = elems;
                                elems.pop().unwrap()
                            } else {
                                let first_span = elems[0].span;
                                let last_span = elems[elems.len() - 1].span;
                                SrcNode::new(Sexpr::List(elems), first_span.extend(last_span))
                            };
                            let head_span = head.span;
                            let ghost hv = head@;
                            let ghost tlv = tail@;
                            let node = SrcNode::new(
                                Sexpr::Pair(Box::new(Pair::new(head, tail))),
                                lparen_span.extend(rparen_span).extend(
                                    head_span.extend(tail_span),
                                ),
                            );
                            proof {
                                reveal_with_fuel(node_view, 3);
                                reveal_with_fuel(sexpr_view, 3);
                                assert(node@.val == SexprV::Pair(Box::new(hv), Box::new(tlv)));
                            }
                            Ok((node, k + 1))
                        },
                    }
                },
                _ => {
                    proof {
                        assert(false);
                    }
                    Err((Diagnostic::new(DiagnosticKind::UnexpectedToken, stop_span), j))
                },
            }
        },
    }
}

/// Collect `sexpr*` from `start` up to the first closing delimiter, period or
/// the end of input. Returns exactly what `sp_elems` describes; on success
/// the stopping token is a closing delimiter, a period, or the end of input.
fn parse_elems(toks: &Vec<(Token, Span)>, eoi: Span, start: usize) -> (r: Result<
    (Vec<SrcNode<Sexpr>>, usize),
    (Diagnostic, usize),
>)
    requires
        start <= toks@.len(),
    ensures
        match r {
            Ok(p) => {
                &&& sp_elems(stream_view(toks@), eoi, start as int) == (PElems::Stop {
                    elems: nodes_view(p.0@),
                    next: p.1 as int,
                })
                &&& start <= p.1 <= toks@.len()
                &&& (p.1 == toks@.len() || toks@[p.1 as int].0 is RParen || toks@[
                    p.1 as int
                ].0 is Period)
            },
            Err(e) => {
                &&& sp_elems(stream_view(toks@), eoi, start as int) == (PElems::Fail {
                    diag: e.0,
                    next: e.1 as int,
                })
                &&& start <= e.1 <= toks@.len()
            },
        },
    decreases toks@.len() - start, 2int,
{
    let ghost tv = stream_view(toks@);
    let mut acc: Vec<SrcNode<Sexpr>> = Vec::new();
    let mut i: usize = start;
    loop
        invariant
            start <= i <= toks@.len(),
            tv == stream_view(toks@),
            pe_prepend(nodes_view(acc@), sp_elems(tv, eoi, i as int)) == sp_elems(
                tv,
                eoi,
                start as int,
            ),
        decreases toks@.len() - i,
    {
        if i == toks.len() {
            proof {
                assert(sp_elems(tv, eoi, i as int) == (PElems::Stop {
                    elems: Seq::<SrcNodeV>::empty(),
                    next: i as int,
                }));
                assert(nodes_view(acc@) + Seq::<SrcNodeV>::empty() =~= nodes_view(acc@));
            }
            return Ok((acc, i));
        }
        proof {
            assert(tv[i as int] == (toks@[i as int].0@, toks@[i as int].1));
            lemma_tok_variant(toks@[i as int].0);
        }
        if matches!(&toks[i].0, Token::RParen | Token::Period) {
            proof {
                assert(sp_elems(tv, eoi, i as int) == (PElems::Stop {
                    elems: Seq::<SrcNodeV>::empty(),
                    next: i as int,
                }));
                assert(nodes_view(acc@) + Seq::<SrcNodeV>::empty() =~= nodes_view(acc@));
            }
            return Ok((acc, i));
        }
        match parse_sexpr(toks, eoi, i) {
            Err(e) => {
                return Err(e);
            },
            Ok((node, n)) => {
                let ghost old_acc = acc@;
                let ghost nv = node@;
                let ghost old_i = i as int;
                acc.push(node);
                i = n;
                proof {
                    lemma_nodes_view_push(old_acc, acc@[old_acc.len() as int]);
                    assert(sp_elems(tv, eoi, old_i) == pe_prepend(
                        seq![nv],
                        sp_elems(tv, eoi, i as int),
                    ));
                    match sp_elems(tv, eoi, i as int) {
                        PElems::Stop { elems, next } => {
                            assert((nodes_view(old_acc) + seq![nv]) + elems =~= nodes_view(old_acc)
                                + (seq![nv] + elems));
                        },
                        PElems::Fail { diag, next } => {},
                    }
                }
            },
        }
    }
}

/// Read all top-level forms of one source unit from a finished token stream.
///
/// `eoi` is the end-of-input marker's span, used to locate errors at the end
/// of the stream. The result is the `Root` holding every form that parsed,
/// beside the diagnostics for every rejection; an empty diagnostics list
/// means a fully well-formed read. The pair is exactly what the spec-level
/// reader `sp_root` describes.
pub fn read(tokens: &Vec<(Token, Span)>, eoi: Span) -> (r: (Root, Vec<Diagnostic>))
    ensures
        ({
            let p = sp_root(stream_view(tokens@), eoi, 0);
            &&& r.0@.forms == p.forms
            &&& r.1@ == p.diags
            &&& r.0@.span == sp_root_span(p.forms)
        }),
{
    let ghost tv = stream_view(tokens@);
    let mut forms: Vec<SrcNode<Sexpr>> = Vec::new();
    let mut diags: Vec<Diagnostic> = Vec::new();
    let mut i: usize = 0;
    while i < tokens.len()
        invariant
            i <= tokens@.len(),
            tv == stream_view(tokens@),
            ({
                let whole = sp_root(tv, eoi, 0);
                let rest = sp_root(tv, eoi, i as int);
                &&& nodes_view(forms@) + rest.forms == whole.forms
                &&& diags@ + rest.diags == whole.diags
            }),
        decreases tokens@.len() - i,
    {
        let ghost old_i = i as int;
        match parse_sexpr(tokens, eoi, i) {
            Ok((node, n)) => {
                let ghost old_forms = forms@;
                let ghost nv = node@;
                forms.push(node);
                i = n;
                proof {
                    lemma_nodes_view_push(old_forms, forms@[old_forms.len() as int]);
                    let rest_old = sp_root(tv, eoi, old_i);
                    let rest_new = sp_root(tv, eoi, i as int);
                    assert(rest_old.forms == seq![nv] + rest_new.forms);
                    assert((nodes_view(old_forms) + seq![nv]) + rest_new.forms =~= nodes_view(
                        old_forms,
                    ) + (seq![nv] + rest_new.forms));
                }
            },
            Err((d, n)) => {
                let ghost old_diags = diags@;
                diags.push(d);
                let mut j: usize = if n > i {
                    n
                } else {
                    i + 1
                };
                while j < tokens.len() && !(tokens[j].0.starts_sexpr())
                    invariant
                        tv == stream_view(tokens@),
                        old_i < j <= tokens@.len(),
                        sp_skip(tv, j as int) == sp_skip(
                            tv,
                            adv_to(old_i, n as int, tv.len() as int),
                        ),
                    decreases tokens@.len() - j,
                {
                    proof {
                        assert(tv[j as int] == (tokens@[j as int].0@, tokens@[j as int].1));
                    }
                    j = j + 1;
                }
                proof {
                    assert(sp_skip(tv, j as int) == j as int);
                }
                i = j;
                proof {
                    let rest_old = sp_root(tv, eoi, old_i);
                    let rest_new = sp_root(tv, eoi, i as int);
                    assert(rest_old.diags == seq![d] + rest_new.diags);
                    assert((old_diags + seq![d]) + rest_new.diags =~= old_diags + (seq![d]
                        + rest_new.diags));
                }
            },
        }
    }
    proof {
        assert(sp_root(tv, eoi, i as int) == (PRoot {
            forms: Seq::<SrcNodeV>::empty(),
            diags: Seq::<Diagnostic>::empty(),
        }));
        assert(nodes_view(forms@) + Seq::<SrcNodeV>::empty() =~= nodes_view(forms@));
        assert(diags@ + Seq::<Diagnostic>::empty() =~= diags@);
        lemma_nodes_view_len(forms@);
    }
    let span = if forms.len() == 0 {
        Span::new(0, 0)
    } else {
        let first_span = forms[0].span;
        let last_span = forms[forms.len() - 1].span;
        first_span.extend(last_span)
    };
    (Root { forms, span }, diags)
}


} // verus!
