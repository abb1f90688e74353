//! The canonical re-serialization of a tree, and the reader's idempotence.
//!
//! `to_tokens` writes a tree back out as a token stream (all forms fully
//! parenthesised, no quote sugar, placeholder spans). The round-trip law
//! `lemma_read_roundtrip` proves that re-reading the serialization of any
//! serializable tree reproduces a structurally equal tree — equal ignoring
//! spans — with no diagnostics. A tree is serializable exactly when each of
//! its `List` nodes is non-empty, as the grammar guarantees of every tree the
//! reader itself produces.

use vstd::prelude::*;
use crate::span::{Span, SrcNode};
use crate::token::{Token, TokenV, stream_view};
use crate::sexpr::{Atom, AtomV, Sexpr, SexprV, SrcNodeV, Root, RootV, nodes_view, node_view,
    sexpr_view, lemma_nodes_view_len};
use crate::read::{PSexpr, PElems, sp_sexpr, sp_elems, sp_paren, sp_root, adv_to};

verus! {

/// The placeholder span of serialized tokens.
pub open spec fn zero_span() -> Span {
    Span { start: 0, end: 0 }
}

/// The token of a leaf.
pub open spec fn ser_atom(a: AtomV) -> TokenV {
    match a {
        AtomV::Symbol(s) => TokenV::Symbol(s),
        AtomV::Number(r) => TokenV::Number(r),
        AtomV::String(s) => TokenV::String(s),
    }
}

/// The canonical token sequence of one tree node.
pub open spec fn ser_sexpr(v: SexprV) -> Seq<(TokenV, Span)>
    decreases v,
{
    match v {
        SexprV::Atom(a) => seq![(ser_atom(a), zero_span())],
        SexprV::List(cs) => seq![(TokenV::LParen, zero_span())] + ser_nodes(cs) + seq![
            (TokenV::RParen, zero_span()),
        ],
        SexprV::Pair(h, t) => seq![(TokenV::LParen, zero_span())] + ser_sexpr(h.val) + seq![
            (TokenV::Period, zero_span()),
        ] + ser_sexpr(t.val) + seq![(TokenV::RParen, zero_span())],
    }
}

/// The concatenated serializations of a sequence of nodes.
pub open spec fn ser_nodes(cs: Seq<SrcNodeV>) -> Seq<(TokenV, Span)>
    decreases cs,
{
    if cs.len() == 0 {
        Seq::empty()
    } else {
        ser_sexpr(cs[0].val) + ser_nodes(cs.drop_first())
    }
}

/// A tree the canonical serialization can represent: every list node holds
/// at least one element, as the grammar requires.
pub open spec fn serializable(v: SexprV) -> bool
    decreases v,
{
    match v {
        SexprV::Atom(_) => true,
        SexprV::List(cs) => cs.len() > 0 && forall|k: int|
            0 <= k < cs.len() ==> serializable((#[trigger] cs[k]).val),
        SexprV::Pair(h, t) => serializable(h.val) && serializable(t.val),
    }
}

/// Structural equality of two trees, ignoring all spans.
pub open spec fn sim(a: SexprV, b: SexprV) -> bool
    decreases a,
{
    match (a, b) {
        (SexprV::Atom(x), SexprV::Atom(y)) => x == y,
        (SexprV::List(xs), SexprV::List(ys)) => xs.len() == ys.len() && forall|k: int|
            0 <= k < xs.len() ==> sim((#[trigger] xs[k]).val, ys[k].val),
        (SexprV::Pair(h1, t1), SexprV::Pair(h2, t2)) => sim(h1.val, h2.val) && sim(t1.val, t2.val),
        _ => false,
    }
}

/// A serialization is never empty.
proof fn lemma_ser_len(v: SexprV)
    ensures
        ser_sexpr(v).len() >= 1,
{
    match v {
        SexprV::Atom(_) => {},
        SexprV::List(_) => {},
        SexprV::Pair(_, _) => {},
    }
}

/// A serialization begins with a token that starts an `sexpr` production and
/// is in particular neither a closing delimiter nor a period.
proof fn lemma_ser_first(v: SexprV)
    ensures
        ser_sexpr(v).len() >= 1,
        !(ser_sexpr(v)[0].0 is RParen),
        !(ser_sexpr(v)[0].0 is Period),
{
    match v {
        SexprV::Atom(a) => {
            match a {
                AtomV::Symbol(_) => {},
                AtomV::Number(_) => {},
                AtomV::String(_) => {},
            }
        },
        SexprV::List(_) => {},
        SexprV::Pair(_, _) => {},
    }
}

/// Appending one node to a sequence appends its serialization.
proof fn lemma_ser_nodes_push(cs: Seq<SrcNodeV>, c: SrcNodeV)
    ensures
        ser_nodes(cs.push(c)) == ser_nodes(cs) + ser_sexpr(c.val),
    decreases cs,
{
    if cs.len() == 0 {
        assert(cs.push(c)[0] == c);
        assert(cs.push(c).drop_first() =~= Seq::empty());
        assert(ser_nodes(cs.push(c).drop_first()) =~= Seq::empty());
        assert(ser_nodes(cs.push(c)) =~= ser_nodes(cs) + ser_sexpr(c.val));
    } else {
        lemma_ser_nodes_push(cs.drop_first(), c);
        assert(cs.push(c)[0] == cs[0]);
        assert(cs.push(c).drop_first() =~= cs.drop_first().push(c));
        assert(ser_nodes(cs.push(c)) =~= ser_nodes(cs) + ser_sexpr(c.val));
    }
}

/// Re-reading the serialization of one serializable tree node, wherever it
/// stands in a larger stream, yields a structurally equal node and consumes
/// exactly the serialization.
proof fn lemma_rt_sexpr(v: SexprV, toks: Seq<(TokenV, Span)>, eoi: Span, i: int)
    requires
        serializable(v),
        0 <= i,
        i + ser_sexpr(v).len() <= toks.len(),
        toks.subrange(i, i + ser_sexpr(v).len() as int) == ser_sexpr(v),
    ensures
        match sp_sexpr(toks, eoi, i) {
            PSexpr::Found { node, next } => sim(node.val, v) && next == i + ser_sexpr(v).len(),
            PSexpr::Fail { .. } => false,
        },
    decreases v,
{
    let ser = ser_sexpr(v);
    assert(forall|m: int| 0 <= m < ser.len() ==> toks[i + m] == #[trigger] ser[m]) by {
        assert(forall|m: int|
            0 <= m < ser.len() ==> #[trigger] ser[m] == toks.subrange(
                i,
                i + ser_sexpr(v).len() as int,
            )[m]);
    }
    assert(toks[i] == ser[0]);
    match v {
        SexprV::Atom(a) => {
            assert(ser[0] == (ser_atom(a), zero_span()));
            assert(toks[i] == (ser_atom(a), zero_span()));
            match a {
                AtomV::Symbol(_) => {},
                AtomV::Number(_) => {},
                AtomV::String(_) => {},
            }
        },
        SexprV::List(cs) => {
            let inner = ser_nodes(cs);
            assert(ser[0] == (TokenV::LParen, zero_span()));
            assert(toks[i] == (TokenV::LParen, zero_span()));
            assert(toks[i + 1 + inner.len()] == (TokenV::RParen, zero_span())) by {
                assert(ser[1 + inner.len() as int] == (TokenV::RParen, zero_span()));
            }
            assert(toks.subrange(i + 1, i + 1 + inner.len() as int) =~= inner) by {
                assert(forall|m: int|
                    0 <= m < inner.len() ==> #[trigger] inner[m] == ser[1 + m]);
            }
            lemma_rt_elems(cs, toks, eoi, i + 1);
            match sp_elems(toks, eoi, i + 1) {
                PElems::Stop { elems, next } => {
                    assert(sp_paren(toks, eoi, i) == (PSexpr::Found {
                        node: SrcNodeV {
                            val: SexprV::List(elems),
                            span: Span::spec_merge(toks[i].1, toks[next].1),
                        },
                        next: next + 1,
                    }));
                    assert(sim(SexprV::List(elems), v));
                },
                PElems::Fail { .. } => {},
            }
        },
        SexprV::Pair(h, t) => {
            let serh = ser_sexpr(h.val);
            let sert = ser_sexpr(t.val);
            assert(ser[0] == (TokenV::LParen, zero_span()));
            assert(toks[i] == (TokenV::LParen, zero_span()));
            let jp = i + 1 + serh.len();
            assert(toks[jp] == (TokenV::Period, zero_span())) by {
                assert(ser[1 + serh.len() as int] == (TokenV::Period, zero_span()));
            }
            let kp = jp + 1 + sert.len();
            assert(toks[kp] == (TokenV::RParen, zero_span())) by {
                assert(ser[1 + serh.len() as int + 1 + sert.len() as int] == (TokenV::RParen, zero_span()));
            }
            // The single element before the period is the head.
            assert(toks.subrange(i + 1, i + 1 + serh.len() as int) =~= serh) by {
                assert(forall|m: int| 0 <= m < serh.len() ==> #[trigger] serh[m] == ser[1 + m]);
            }
            lemma_ser_first(h.val);
            assert(toks[i + 1] == serh[0]) by {
                assert(ser[1] == serh[0]);
            }
            lemma_rt_sexpr(h.val, toks, eoi, i + 1);
            match sp_sexpr(toks, eoi, i + 1) {
                PSexpr::Fail { .. } => {},
                PSexpr::Found { node: hd, next: nh } => {
                    assert(nh == jp);
                    assert(sp_elems(toks, eoi, jp) == (PElems::Stop {
                        elems: Seq::<SrcNodeV>::empty(),
                        next: jp,
                    }));
                    assert(adv_to(i + 1, nh, toks.len() as int) == nh);
                    assert(sp_elems(toks, eoi, i + 1) == (PElems::Stop {
                        elems: seq![hd] + Seq::<SrcNodeV>::empty(),
                        next: jp,
                    }));
                    let elems = seq![hd] + Seq::<SrcNodeV>::empty();
                    assert(elems.len() == 1);
                    assert(elems[0] == hd);
                    assert(sim(elems[0].val, h.val));
                    assert(toks.subrange(jp + 1, jp + 1 + sert.len() as int) =~= sert) by {
                        assert(forall|m: int|
                            0 <= m < sert.len() ==> #[trigger] sert[m] == ser[1 + serh.len() + 1
                                + m]);
                    }
                    lemma_rt_sexpr(t.val, toks, eoi, jp + 1);
                    match sp_sexpr(toks, eoi, jp + 1) {
                        PSexpr::Fail { .. } => {},
                        PSexpr::Found { node: tl, next: fin } => {
                            assert(fin == kp);
                            assert(sp_paren(toks, eoi, i) == (PSexpr::Found {
                                node: SrcNodeV {
                                    val: SexprV::Pair(Box::new(elems[0]), Box::new(tl)),
                                    span: Span::spec_merge(
                                        Span::spec_merge(toks[i].1, toks[kp].1),
                                        Span::spec_merge(elems[0].span, tl.span),
                                    ),
                                },
                                next: kp + 1,
                            }));
                            assert(sim(SexprV::Pair(Box::new(elems[0]), Box::new(tl)), v));
                        },
                    }
                },
            }
        },
    }
}

/// Re-reading the concatenated serializations of the nodes `cs`, placed just
/// before a closing delimiter or period, collects structurally equal
/// elements and stops exactly at that delimiter.
proof fn lemma_rt_elems(cs: Seq<SrcNodeV>, toks: Seq<(TokenV, Span)>, eoi: Span, i: int)
    requires
        forall|k: int| 0 <= k < cs.len() ==> serializable((#[trigger] cs[k]).val),
        0 <= i,
        i + ser_nodes(cs).len() < toks.len(),
        toks.subrange(i, i + ser_nodes(cs).len() as int) == ser_nodes(cs),
        toks[i + ser_nodes(cs).len()].0 is RParen || toks[i + ser_nodes(cs).len()].0 is Period,
    ensures
        match sp_elems(toks, eoi, i) {
            PElems::Stop { elems, next } => {
                &&& elems.len() == cs.len()
                &&& forall|k: int|
                    0 <= k < cs.len() ==> sim((#[trigger] elems[k]).val, cs[k].val)
                &&& next == i + ser_nodes(cs).len()
            },
            PElems::Fail { .. } => false,
        },
    decreases cs,
{
    if cs.len() == 0 {
        assert(ser_nodes(cs).len() == 0);
        assert(sp_elems(toks, eoi, i) == (PElems::Stop {
            elems: Seq::<SrcNodeV>::empty(),
            next: i,
        }));
    } else {
        let c0 = cs[0];
        let rest = cs.drop_first();
        let ser0 = ser_sexpr(c0.val);
        let serr = ser_nodes(rest);
        assert(ser_nodes(cs) == ser0 + serr);
        assert(forall|m: int|
            0 <= m < ser_nodes(cs).len() ==> toks[i + m] == #[trigger] ser_nodes(cs)[m]) by {
            assert(forall|m: int|
                0 <= m < ser_nodes(cs).len() ==> #[trigger] ser_nodes(cs)[m] == toks.subrange(
                    i,
                    i + ser_nodes(cs).len() as int,
                )[m]);
        }
        assert(toks.subrange(i, i + ser0.len() as int) =~= ser0) by {
            assert(forall|m: int|
                0 <= m < ser0.len() ==> #[trigger] ser0[m] == ser_nodes(cs)[m]);
        }
        lemma_ser_first(c0.val);
        lemma_rt_sexpr(c0.val, toks, eoi, i);
        match sp_sexpr(toks, eoi, i) {
            PSexpr::Fail { .. } => {},
            PSexpr::Found { node: n0, next } => {
                assert(next == i + ser0.len());
                assert(toks.subrange(next, next + serr.len() as int) =~= serr) by {
                    assert(forall|m: int|
                        0 <= m < serr.len() ==> #[trigger] serr[m] == ser_nodes(cs)[ser0.len()
                            + m]);
                }
                lemma_rt_elems(rest, toks, eoi, next);
                assert(!(toks[i].0 is RParen) && !(toks[i].0 is Period)) by {
                    assert(toks[i] == ser_nodes(cs)[0]);
                    assert(ser_nodes(cs)[0] == ser0[0]);
                }
                assert(adv_to(i, next, toks.len() as int) == next);
                match sp_elems(toks, eoi, next) {
                    PElems::Fail { .. } => {},
                    PElems::Stop { elems: er, next: fin } => {
                        let elems = seq![n0] + er;
                        assert(elems[0] == n0);
                        assert(forall|k: int|
                            1 <= k < elems.len() ==> #[trigger] elems[k] == er[k - 1]);
                        assert forall|k: int| 0 <= k < cs.len() implies sim(
                            (#[trigger] elems[k]).val,
                            cs[k].val,
                        ) by {
                            if k > 0 {
                                assert(rest[k - 1] == cs[k]);
                            }
                        }
                    },
                }
            },
        }
    }
}

/// The concatenated serializations of a whole source unit's forms.
pub open spec fn ser_forms(fs: Seq<SrcNodeV>) -> Seq<(TokenV, Span)>
    decreases fs,
{
    if fs.len() == 0 {
        Seq::empty()
    } else {
        ser_sexpr(fs[0].val) + ser_forms(fs.drop_first())
    }
}

/// Re-reading the serialization of a sequence of top-level forms, from `i`
/// to the end of the stream, reproduces them all with no diagnostics.
proof fn lemma_rt_root(fs: Seq<SrcNodeV>, toks: Seq<(TokenV, Span)>, eoi: Span, i: int)
    requires
        forall|k: int| 0 <= k < fs.len() ==> serializable((#[trigger] fs[k]).val),
        0 <= i,
        i + ser_forms(fs).len() == toks.len(),
        toks.subrange(i, toks.len() as int) == ser_forms(fs),
    ensures
        ({
            let p = sp_root(toks, eoi, i);
            &&& p.diags.len() == 0
            &&& p.forms.len() == fs.len()
            &&& forall|k: int|
                0 <= k < fs.len() ==> sim((#[trigger] p.forms[k]).val, fs[k].val)
        }),
    decreases fs,
{
    if fs.len() == 0 {
    } else {
        let f0 = fs[0];
        let rest = fs.drop_first();
        let ser0 = ser_sexpr(f0.val);
        let serr = ser_forms(rest);
        assert(ser_forms(fs) == ser0 + serr);
        assert(forall|m: int|
            0 <= m < ser_forms(fs).len() ==> toks[i + m] == #[trigger] ser_forms(fs)[m]) by {
            assert(forall|m: int|
                0 <= m < ser_forms(fs).len() ==> #[trigger] ser_forms(fs)[m] == toks.subrange(
                    i,
                    toks.len() as int,
                )[m]);
        }
        lemma_ser_len(f0.val);
        assert(toks.subrange(i, i + ser0.len() as int) =~= ser0) by {
            assert(forall|m: int|
                0 <= m < ser0.len() ==> #[trigger] ser0[m] == ser_forms(fs)[m]);
        }
        lemma_rt_sexpr(f0.val, toks, eoi, i);
        match sp_sexpr(toks, eoi, i) {
            PSexpr::Fail { .. } => {},
            PSexpr::Found { node: n0, next } => {
                assert(next == i + ser0.len());
                assert(toks.subrange(next, toks.len() as int) =~= serr) by {
                    assert(forall|m: int|
                        0 <= m < serr.len() ==> #[trigger] serr[m] == ser_forms(fs)[ser0.len()
                            + m]);
                }
                lemma_rt_root(rest, toks, eoi, next);
                assert(adv_to(i, next, toks.len() as int) == next);
                let p = sp_root(toks, eoi, i);
                let pr = sp_root(toks, eoi, next);
                assert(p.forms == seq![n0] + pr.forms);
                assert forall|k: int| 0 <= k < fs.len() implies sim(
                    (#[trigger] p.forms[k]).val,
                    fs[k].val,
                ) by {
                    if k > 0 {
                        assert(p.forms[k] == pr.forms[k - 1]);
                        assert(rest[k - 1] == fs[k]);
                    }
                }
            },
        }
    }
}

/// Idempotence of the reader: re-reading the canonical serialization of any
/// serializable tree yields a structurally equal tree — equal ignoring spans
/// — and no diagnostics.
pub proof fn lemma_read_roundtrip(root: RootV, eoi: Span)
    requires
        forall|k: int|
            0 <= k < root.forms.len() ==> serializable((#[trigger] root.forms[k]).val),
    ensures
        ({
            let p = sp_root(ser_forms(root.forms), eoi, 0);
            &&& p.diags.len() == 0
            &&& p.forms.len() == root.forms.len()
            &&& forall|k: int|
                0 <= k < root.forms.len() ==> sim(
                    (#[trigger] p.forms[k]).val,
                    root.forms[k].val,
                )
        }),
{
    let toks = ser_forms(root.forms);
    assert(toks.subrange(0, toks.len() as int) =~= toks);
    lemma_rt_root(root.forms, toks, eoi, 0);
}

/// Write one tree node out as canonical tokens, appending to `out`.
fn emit(e: &Sexpr, out: &mut Vec<(Token, Span)>)
    ensures
        stream_view(final(out)@) == stream_view(old(out)@) + ser_sexpr(sexpr_view(*e)),
    decreases *e,
{
    let z = Span::new(0, 0);
    match e {
        Sexpr::Atom(a) => {
            let tok = match a {
                Atom::Symbol(s) => Token::Symbol(s.clone()),
                Atom::Number(q) => Token::Number(*q),
                Atom::String(s) => Token::String(s.clone()),
            };
            let ghost before = out@;
            out.push((tok, z));
            proof {
                assert(stream_view(out@) =~= stream_view(before) + ser_sexpr(sexpr_view(*e)));
            }
        },
        Sexpr::List(children) => {
            let ghost before = out@;
            out.push((Token::LParen, z));
            proof {
                assert(stream_view(out@) =~= stream_view(before) + seq![
                    (TokenV::LParen, zero_span()),
                ]);
            }
            let ghost cs = nodes_view(children@);
            let mut k: usize = 0;
            proof {
                lemma_nodes_view_len(children@);
                assert(cs.take(0) =~= Seq::empty());
                assert(ser_nodes(cs.take(0)) =~= Seq::empty());
                assert(stream_view(out@) =~= stream_view(before) + seq![
                    (TokenV::LParen, zero_span()),
                ] + ser_nodes(cs.take(0)));
            }
            while k < children.len()
                invariant
                    *e is List,
                    e->List_0 == *children,
                    k <= children@.len(),
                    cs == nodes_view(children@),
                    cs.len() == children@.len(),
                    forall|m: int| 0 <= m < cs.len() ==> #[trigger] cs[m] == node_view(
                        children@[m],
                    ),
                    stream_view(out@) == stream_view(before) + seq![
                        (TokenV::LParen, zero_span()),
                    ] + ser_nodes(cs.take(k as int)),
                decreases children@.len() - k,
            {
                let ghost mid = out@;
                proof {
                    assert(decreases_to!(*e => e->List_0));
                    vstd::std_specs::vec::axiom_vec_index_decreases(*children, k as int);
                    assert(decreases_to!(*e => children@[k as int].value));
                }
                emit(&children[k].value, out);
                proof {
                    assert(cs.take(k as int + 1) =~= cs.take(k as int).push(cs[k as int]));
                    lemma_ser_nodes_push(cs.take(k as int), cs[k as int]);
                    assert(cs[k as int].val == sexpr_view(children@[k as int].value));
                    assert(stream_view(out@) =~= stream_view(before) + seq![
                        (TokenV::LParen, zero_span()),
                    ] + ser_nodes(cs.take(k as int + 1)));
                }
                k = k + 1;
            }
            let ghost mid2 = out@;
            out.push((Token::RParen, z));
            proof {
                assert(cs.take(cs.len() as int) =~= cs);
                assert(stream_view(out@) =~= stream_view(mid2) + seq![
                    (TokenV::RParen, zero_span()),
                ]);
                assert(stream_view(out@) =~= stream_view(before) + ser_sexpr(sexpr_view(*e)));
            }
        },
        Sexpr::Pair(p) => {
            let ghost before = out@;
            out.push((Token::LParen, z));
            proof {
                assert(stream_view(out@) =~= stream_view(before) + seq![
                    (TokenV::LParen, zero_span()),
                ]);
            }
            emit(&p.head.value, out);
            let ghost m1 = out@;
            out.push((Token::Period, z));
            proof {
                assert(stream_view(out@) =~= stream_view(m1) + seq![
                    (TokenV::Period, zero_span()),
                ]);
            }
            emit(&p.tail.value, out);
            let ghost m2 = out@;
            out.push((Token::RParen, z));
            proof {
                reveal_with_fuel(sexpr_view, 2);
                reveal_with_fuel(node_view, 2);
                assert(stream_view(out@) =~= stream_view(m2) + seq![
                    (TokenV::RParen, zero_span()),
                ]);
                assert(sexpr_view(*e) == SexprV::Pair(
                    Box::new(node_view(p.head)),
                    Box::new(node_view(p.tail)),
                ));
                assert(stream_view(out@) =~= stream_view(before) + ser_sexpr(sexpr_view(*e)));
            }
        },
    }
}

/// The canonical re-serialization of a whole source unit: every form written
/// back out as fully parenthesised tokens with placeholder spans.
pub fn to_tokens(root: &Root) -> (out: Vec<(Token, Span)>)
    ensures
        stream_view(out@) == ser_forms(root@.forms),
{
    let mut out: Vec<(Token, Span)> = Vec::new();
    let ghost fs = nodes_view(root.forms@);
    proof {
        lemma_nodes_view_len(root.forms@);
        assert(fs.take(0) =~= Seq::empty());
        assert(ser_forms(fs.take(0)) =~= Seq::empty());
        assert(stream_view(out@) =~= ser_forms(fs.take(0)));
    }
    let mut k: usize = 0;
    while k < root.forms.len()
        invariant
            k <= root.forms@.len(),
            fs == nodes_view(root.forms@),
            fs.len() == root.forms@.len(),
            forall|m: int| 0 <= m < fs.len() ==> #[trigger] fs[m] == node_view(root.forms@[m]),
            stream_view(out@) == ser_forms(fs.take(k as int)),
        decreases root.forms@.len() - k,
    {
        emit(&root.forms[k].value, &mut out);
        proof {
            assert(fs.take(k as int + 1) =~= fs.take(k as int).push(fs[k as int]));
            lemma_ser_forms_push(fs.take(k as int), fs[k as int]);
            assert(fs[k as int].val == sexpr_view(root.forms@[k as int].value));
            assert(stream_view(out@) =~= ser_forms(fs.take(k as int + 1)));
        }
        k = k + 1;
    }
    proof {
        assert(fs.take(fs.len() as int) =~= fs);
    }
    out
}

/// Appending one form to a sequence appends its serialization.
proof fn lemma_ser_forms_push(fs: Seq<SrcNodeV>, f: SrcNodeV)
    ensures
        ser_forms(fs.push(f)) == ser_forms(fs) + ser_sexpr(f.val),
    decreases fs,
{
    if fs.len() == 0 {
        assert(fs.push(f)[0] == f);
        assert(fs.push(f).drop_first() =~= Seq::empty());
        assert(ser_forms(fs.push(f).drop_first()) =~= Seq::empty());
        assert(ser_forms(fs.push(f)) =~= ser_forms(fs) + ser_sexpr(f.val));
    } else {
        lemma_ser_forms_push(fs.drop_first(), f);
        assert(fs.push(f)[0] == fs[0]);
        assert(fs.push(f).drop_first() =~= fs.drop_first().push(f));
        assert(ser_forms(fs.push(f)) =~= ser_forms(fs) + ser_sexpr(f.val));
    }
}

} // verus!
