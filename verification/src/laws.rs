//! Global properties of the reader, proved once and for all streams.
//!
//! The main results: reading a single flat atom yields exactly that atom
//! (`lemma_read_single_atom`), and on any well-formed token stream every node
//! the reader produces spans a range that contains the spans of all its
//! children (`lemma_span_containment`).

use vstd::prelude::*;
use crate::span::Span;
use crate::token::{TokenV, wf_stream};
use crate::sexpr::{AtomV, SexprV, SrcNodeV, node_contained};
use crate::serialize::{serializable, ser_forms, sim, lemma_read_roundtrip};
use crate::read::{Diagnostic, PSexpr, PElems, PRoot, sp_sexpr, sp_elems, sp_paren,
    sp_skip, sp_root, sp_root_span, adv_to};

verus! {

/// Resynchronization never moves backwards and never leaves the stream.
pub proof fn lemma_skip_bounds(toks: Seq<(TokenV, Span)>, i: int)
    requires
        0 <= i <= toks.len(),
    ensures
        i <= sp_skip(toks, i) <= toks.len(),
    decreases toks.len() - i,
{
    if i < toks.len() && !crate::token::spec_starts_sexpr(toks[i].0) {
        lemma_skip_bounds(toks, i + 1);
    }
}

/// Bounds and span discipline for one parsed `sexpr`: parsing consumes at
/// least one token, the node's span is well formed, lies within the consumed
/// tokens' range, and contains all its children's spans.
pub proof fn lemma_sexpr_spans(toks: Seq<(TokenV, Span)>, eoi: Span, i: int)
    requires
        wf_stream(toks),
        0 <= i <= toks.len(),
    ensures
        match sp_sexpr(toks, eoi, i) {
            PSexpr::Found { node, next } => {
                &&& i < next <= toks.len()
                &&& node_contained(node)
                &&& serializable(node.val)
                &&& node.span.wf()
                &&& toks[i].1.start <= node.span.start
                &&& node.span.end <= toks[next - 1].1.end
            },
            PSexpr::Fail { diag, next } => i <= next <= toks.len(),
        },
    decreases toks.len() - i, 1int,
{
    if i >= toks.len() {
        return ;
    }
    match toks[i].0 {
        TokenV::Symbol(_) => {},
        TokenV::Number(_) => {},
        TokenV::String(_) => {},
        TokenV::LParen => {
            lemma_paren_spans(toks, eoi, i);
        },
        TokenV::RParen => {},
        TokenV::Period => {},
        _ => {
            // A quote-family marker.
            lemma_sexpr_spans(toks, eoi, i + 1);
            match sp_sexpr(toks, eoi, i + 1) {
                PSexpr::Fail { .. } => {},
                PSexpr::Found { node: inner, next } => {
                    let marker = SrcNodeV {
                        val: SexprV::Atom(AtomV::Symbol(crate::read::quote_name(toks[i].0))),
                        span: toks[i].1,
                    };
                    let span = Span::spec_merge(toks[i].1, inner.span);
                    let out = SrcNodeV { val: SexprV::List(seq![marker, inner]), span };
                    // The marker's token comes before everything the inner
                    // form consumed.
                    assert(toks[i].1.end <= toks[i + 1].1.start);
                    assert(toks[i].1.end <= toks[next - 1].1.end);
                    let cs = seq![marker, inner];
                    assert forall|k: int| 0 <= k < cs.len() implies (#[trigger] cs[k]).span.inside(
                        out.span,
                    ) && node_contained(cs[k]) && serializable(cs[k].val) by {
                        if k == 0 {
                            assert(cs[k] == marker);
                            assert(node_contained(marker));
                            assert(serializable(marker.val));
                        } else {
                            assert(cs[k] == inner);
                        }
                    }
                    assert(node_contained(out));
                    assert(serializable(out.val));
                },
            }
        },
    }
}

/// The bounds of `lemma_sexpr_spans`, for a parenthesised form.
pub proof fn lemma_paren_spans(toks: Seq<(TokenV, Span)>, eoi: Span, i: int)
    requires
        wf_stream(toks),
        0 <= i < toks.len(),
        toks[i].0 is LParen,
    ensures
        match sp_paren(toks, eoi, i) {
            PSexpr::Found { node, next } => {
                &&& i < next <= toks.len()
                &&& node_contained(node)
                &&& serializable(node.val)
                &&& node.span.wf()
                &&& toks[i].1.start <= node.span.start
                &&& node.span.end <= toks[next - 1].1.end
            },
            PSexpr::Fail { diag, next } => i <= next <= toks.len(),
        },
    decreases toks.len() - i, 0int,
{
    lemma_elems_spans(toks, eoi, i + 1);
    match sp_elems(toks, eoi, i + 1) {
        PElems::Fail { .. } => {},
        PElems::Stop { elems, next } => {
            let j = next;
            if j >= toks.len() {
            } else if elems.len() == 0 {
            } else {
                // The elements lie strictly between the delimiters.
                assert(toks[i].1.end <= toks[i + 1].1.start);
                if toks[j].0 is RParen {
                    let span = Span::spec_merge(toks[i].1, toks[j].1);
                    let out = SrcNodeV { val: SexprV::List(elems), span };
                    assert forall|k: int| 0 <= k < elems.len() implies (#[trigger] elems[
                        k
                    ]).span.inside(out.span) && node_contained(elems[k]) by {
                        assert(toks[i].1.start <= toks[i + 1].1.start);
                        assert(toks[j - 1].1.end <= toks[j].1.start);
                    }
                    assert(node_contained(out));
                    assert(serializable(out.val));
                } else if j + 1 >= toks.len() {
                } else if toks[j + 1].0 is RParen {
                } else {
                    lemma_sexpr_spans(toks, eoi, j + 1);
                    match sp_sexpr(toks, eoi, j + 1) {
                        PSexpr::Fail { .. } => {},
                        PSexpr::Found { node: tail, next: k } => {
                            if k >= toks.len() {
                            } else if toks[k].0 is RParen {
                                lemma_dotted_spans(toks, eoi, i, elems, j, tail, k);
                            } else {
                            }
                        },
                    }
                }
            }
        },
    }
}

/// The span discipline of a completed dotted pair: `i` holds the opening
/// delimiter, `elems` the elements before the period at `j`, `tail` the form
/// after it, and `k` the closing delimiter.
proof fn lemma_dotted_spans(
    toks: Seq<(TokenV, Span)>,
    eoi: Span,
    i: int,
    elems: Seq<SrcNodeV>,
    j: int,
    tail: SrcNodeV,
    k: int,
)
    requires
        wf_stream(toks),
        0 <= i < j < k < toks.len(),
        elems.len() > 0,
        forall|m: int|
            0 <= m < elems.len() ==> node_contained(#[trigger] elems[m]) && serializable(
                elems[m].val,
            ) && elems[m].span.wf(),
        forall|m: int|
            0 <= m < elems.len() ==> toks[i + 1].1.start <= (#[trigger] elems[m]).span.start
                && elems[m].span.end <= toks[j - 1].1.end,
        forall|m: int, l: int|
            0 <= m < l < elems.len() ==> (#[trigger] elems[m]).span.end <= (#[trigger] elems[
                l
            ]).span.start,
        sp_sexpr(toks, eoi, j + 1) == (PSexpr::Found { node: tail, next: k }),
        node_contained(tail),
        serializable(tail.val),
        tail.span.wf(),
        toks[j + 1].1.start <= tail.span.start,
        tail.span.end <= toks[k - 1].1.end,
    ensures
        ({
            let head = if elems.len() == 1 {
                elems[0]
            } else {
                SrcNodeV {
                    val: SexprV::List(elems),
                    span: Span::spec_merge(elems[0].span, elems.last().span),
                }
            };
            let node = SrcNodeV {
                val: SexprV::Pair(Box::new(head), Box::new(tail)),
                span: Span::spec_merge(
                    Span::spec_merge(toks[i].1, toks[k].1),
                    Span::spec_merge(head.span, tail.span),
                ),
            };
            &&& node_contained(node)
            &&& serializable(node.val)
            &&& node.span.wf()
            &&& toks[i].1.start <= node.span.start
            &&& node.span.end <= toks[k].1.end
        }),
{
    let head = if elems.len() == 1 {
        elems[0]
    } else {
        SrcNodeV {
            val: SexprV::List(elems),
            span: Span::spec_merge(elems[0].span, elems.last().span),
        }
    };
    assert(toks[i].1.end <= toks[i + 1].1.start);
    assert(toks[j - 1].1.end <= toks[j].1.start);
    assert(toks[j].1.end <= toks[j + 1].1.start);
    assert(toks[k - 1].1.end <= toks[k].1.start);
    assert(toks[i + 1].1.start <= elems[0].span.start);
    assert(elems.last().span.end <= toks[j - 1].1.end);
    assert(serializable(head.val)) by {
        if elems.len() > 1 {
            assert(serializable(elems[0].val));
        }
    }
    if elems.len() > 1 {
        assert forall|m: int| 0 <= m < elems.len() implies (#[trigger] elems[m]).span.inside(
            head.span,
        ) && node_contained(elems[m]) by {
            if m > 0 {
                assert(elems[0].span.end <= elems[m].span.start);
            }
            if m < elems.len() - 1 {
                assert(elems[m].span.end <= elems[elems.len() - 1].span.start);
            }
        }
        assert(node_contained(head));
    }
    let node = SrcNodeV {
        val: SexprV::Pair(Box::new(head), Box::new(tail)),
        span: Span::spec_merge(
            Span::spec_merge(toks[i].1, toks[k].1),
            Span::spec_merge(head.span, tail.span),
        ),
    };
    assert(head.span.inside(node.span));
    assert(tail.span.inside(node.span));
    assert(node_contained(node));
    assert(serializable(node.val));
}

/// Bounds and span discipline for the elements collected inside a delimited
/// form: every element is contained, the elements' spans appear in order, and
/// all lie within the consumed tokens' range.
pub proof fn lemma_elems_spans(toks: Seq<(TokenV, Span)>, eoi: Span, i: int)
    requires
        wf_stream(toks),
        0 <= i <= toks.len(),
    ensures
        match sp_elems(toks, eoi, i) {
            PElems::Stop { elems, next } => {
                &&& i <= next <= toks.len()
                &&& (elems.len() > 0 ==> i < next)
                &&& forall|m: int|
                    0 <= m < elems.len() ==> node_contained(#[trigger] elems[m]) && serializable(
                        elems[m].val,
                    ) && elems[m].span.wf()
                &&& forall|m: int|
                    0 <= m < elems.len() ==> toks[i].1.start <= (#[trigger] elems[m]).span.start
                        && elems[m].span.end <= toks[next - 1].1.end
                &&& forall|m: int, l: int|
                    0 <= m < l < elems.len() ==> (#[trigger] elems[m]).span.end <= (#[trigger] elems[
                        l
                    ]).span.start
            },
            PElems::Fail { diag, next } => i <= next <= toks.len(),
        },
    decreases toks.len() - i, 2int,
{
    if i >= toks.len() {
        return ;
    }
    match toks[i].0 {
        TokenV::RParen => {},
        TokenV::Period => {},
        _ => {
            lemma_sexpr_spans(toks, eoi, i);
            match sp_sexpr(toks, eoi, i) {
                PSexpr::Fail { .. } => {},
                PSexpr::Found { node, next } => {
                    let j = adv_to(i, next, toks.len() as int);
                    assert(j == next);
                    lemma_elems_spans(toks, eoi, j);
                    match sp_elems(toks, eoi, j) {
                        PElems::Fail { .. } => {},
                        PElems::Stop { elems: rest, next: fin } => {
                            let elems = seq![node] + rest;
                            assert(elems[0] == node);
                            assert(forall|m: int|
                                1 <= m < elems.len() ==> #[trigger] elems[m] == rest[m - 1]);
                            if rest.len() > 0 {
                                assert(j < fin);
                                assert(toks[j - 1].1.end <= toks[j].1.start);
                            }
                            assert(toks[next - 1].1.end <= toks[fin - 1].1.end) by {
                                if next - 1 < fin - 1 {
                                    assert(toks[next - 1].1.end <= toks[fin - 1].1.start);
                                }
                            }
                            assert forall|m: int| 0 <= m < elems.len() implies toks[i].1.start <= (
                            #[trigger] elems[m]).span.start && elems[m].span.end <= toks[fin
                                - 1].1.end by {
                                if m == 0 {
                                } else {
                                    assert(toks[i].1.start <= toks[i].1.end);
                                    assert(toks[i].1.end <= toks[j].1.start);
                                    assert(toks[j].1.start <= rest[m - 1].span.start);
                                }
                            }
                            assert forall|m: int, l: int| 0 <= m < l < elems.len() implies (
                            #[trigger] elems[m]).span.end <= (#[trigger] elems[l]).span.start by {
                                if m == 0 {
                                    assert(node.span.end <= toks[next - 1].1.end);
                                    assert(toks[next - 1].1.end <= toks[j].1.start) by {
                                        if next - 1 < j {
                                        }
                                    }
                                    assert(toks[j].1.start <= rest[l - 1].span.start);
                                }
                            }
                        },
                    }
                },
            }
        },
    }
}

/// Bounds, ordering and containment for the top-level forms read from `i` on.
pub proof fn lemma_root_spans(toks: Seq<(TokenV, Span)>, eoi: Span, i: int)
    requires
        wf_stream(toks),
        0 <= i <= toks.len(),
    ensures
        ({
            let p = sp_root(toks, eoi, i);
            &&& forall|m: int|
                0 <= m < p.forms.len() ==> node_contained(#[trigger] p.forms[m]) && serializable(
                    p.forms[m].val,
                ) && p.forms[m].span.wf()
            &&& forall|m: int|
                0 <= m < p.forms.len() ==> toks[i].1.start <= (#[trigger] p.forms[m]).span.start
                    && p.forms[m].span.end <= toks[toks.len() - 1].1.end
            &&& forall|m: int, l: int|
                0 <= m < l < p.forms.len() ==> (#[trigger] p.forms[m]).span.end <= (
                #[trigger] p.forms[l]).span.start
        }),
    decreases toks.len() - i,
{
    if i >= toks.len() {
        return ;
    }
    lemma_sexpr_spans(toks, eoi, i);
    match sp_sexpr(toks, eoi, i) {
        PSexpr::Found { node, next } => {
            let j = adv_to(i, next, toks.len() as int);
            assert(j == next);
            lemma_root_spans(toks, eoi, j);
            let rest = sp_root(toks, eoi, j);
            let forms = seq![node] + rest.forms;
            assert(forms[0] == node);
            assert(forall|m: int| 1 <= m < forms.len() ==> #[trigger] forms[m] == rest.forms[m - 1]);
            assert(node.span.end <= toks[toks.len() - 1].1.end) by {
                if next - 1 < toks.len() - 1 {
                    assert(toks[next - 1].1.end <= toks[toks.len() - 1].1.start);
                }
            }
            assert forall|m: int| 0 <= m < forms.len() implies toks[i].1.start <= (
            #[trigger] forms[m]).span.start && forms[m].span.end <= toks[toks.len() - 1].1.end by {
                if m > 0 {
                    assert(j < toks.len());
                    assert(toks[i].1.start <= toks[i].1.end);
                    assert(toks[i].1.end <= toks[j].1.start);
                    assert(toks[j].1.start <= rest.forms[m - 1].span.start);
                }
            }
            assert forall|m: int, l: int| 0 <= m < l < forms.len() implies (
            #[trigger] forms[m]).span.end <= (#[trigger] forms[l]).span.start by {
                if m == 0 {
                    assert(l - 1 < rest.forms.len());
                    assert(j < toks.len());
                    assert(node.span.end <= toks[next - 1].1.end);
                    assert(toks[next - 1].1.end <= toks[j].1.start) by {
                        if next - 1 < j {
                        }
                    }
                    assert(toks[j].1.start <= rest.forms[l - 1].span.start);
                }
            }
        },
        PSexpr::Fail { diag, next } => {
            let j0 = adv_to(i, next, toks.len() as int);
            lemma_skip_bounds(toks, j0);
            let j = adv_to(i, sp_skip(toks, j0), toks.len() as int);
            lemma_root_spans(toks, eoi, j);
            let rest = sp_root(toks, eoi, j);
            assert forall|m: int| 0 <= m < rest.forms.len() implies toks[i].1.start <= (
            #[trigger] rest.forms[m]).span.start && rest.forms[m].span.end <= toks[toks.len()
                - 1].1.end by {
                assert(j < toks.len() ==> toks[i].1.start <= toks[j].1.start) by {
                    if i < j && j < toks.len() {
                        assert(toks[i].1.end <= toks[j].1.start);
                    }
                }
            }
        },
    }
}

/// Reading the token of one flat atom alone yields a root with exactly one
/// form, that atom, no diagnostics, and the token's own span.
pub proof fn lemma_read_single_atom(t: TokenV, s: Span, eoi: Span)
    requires
        t is Symbol || t is Number || t is String,
    ensures
        ({
            let p = sp_root(seq![(t, s)], eoi, 0);
            &&& p.forms.len() == 1
            &&& p.diags.len() == 0
            &&& p.forms[0].span == s
            &&& p.forms[0].val == SexprV::Atom(
                match t {
                    TokenV::Symbol(x) => AtomV::Symbol(x),
                    TokenV::Number(q) => AtomV::Number(q),
                    _ => AtomV::String(t->String_0),
                },
            )
            &&& sp_root_span(p.forms) == s
        }),
{
    let toks = seq![(t, s)];
    assert(toks[0] == (t, s));
    reveal_with_fuel(sp_root, 3);
    assert(sp_root(toks, eoi, 1) == (PRoot {
        forms: Seq::<SrcNodeV>::empty(),
        diags: Seq::<Diagnostic>::empty(),
    }));
    let p = sp_root(toks, eoi, 0);
    assert(p.forms.len() == 1 && p.diags.len() == 0);
}

/// Idempotence over a whole read: every tree the reader produces on a
/// well-formed token stream is serializable, so re-reading its canonical
/// serialization reproduces the same forms, structurally, with no
/// diagnostics.
pub proof fn lemma_read_then_reread(toks: Seq<(TokenV, Span)>, eoi: Span, eoi2: Span)
    requires
        wf_stream(toks),
    ensures
        ({
            let p = sp_root(toks, eoi, 0);
            let q = sp_root(ser_forms(p.forms), eoi2, 0);
            &&& q.diags.len() == 0
            &&& q.forms.len() == p.forms.len()
            &&& forall|k: int|
                0 <= k < p.forms.len() ==> sim((#[trigger] q.forms[k]).val, p.forms[k].val)
        }),
{
    lemma_root_spans(toks, eoi, 0);
    let p = sp_root(toks, eoi, 0);
    lemma_read_roundtrip(crate::sexpr::RootV { forms: p.forms, span: sp_root_span(p.forms) }, eoi2);
}

/// Span containment over a whole read: on a well-formed token stream, every
/// node of every form contains its children's spans, and the root's span
/// contains every form's span.
pub proof fn lemma_span_containment(toks: Seq<(TokenV, Span)>, eoi: Span)
    requires
        wf_stream(toks),
    ensures
        ({
            let p = sp_root(toks, eoi, 0);
            &&& forall|m: int| 0 <= m < p.forms.len() ==> node_contained(#[trigger] p.forms[m])
            &&& forall|m: int|
                0 <= m < p.forms.len() ==> (#[trigger] p.forms[m]).span.inside(
                    sp_root_span(p.forms),
                )
        }),
{
    lemma_root_spans(toks, eoi, 0);
    let p = sp_root(toks, eoi, 0);
    let forms = p.forms;
    if forms.len() > 0 {
        assert forall|m: int| 0 <= m < forms.len() implies (#[trigger] forms[m]).span.inside(
            sp_root_span(forms),
        ) by {
            assert(forms.last() == forms[forms.len() - 1]);
            if m > 0 {
                assert(forms[0].span.end <= forms[m].span.start);
            }
            if m < forms.len() - 1 {
                assert(forms[m].span.end <= forms[forms.len() - 1].span.start);
            }
        }
    }
}

} // verus!
