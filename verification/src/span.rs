//! Source spans and span-annotated nodes.
//!
//! A `Span` is a half-open byte range `[start, end)` into the source text.
//! Merging two spans yields the smallest span covering both; every composite
//! node of the tree carries the merge of its parts.

use vstd::prelude::*;

verus! {

/// A half-open byte range `[start, end)` into the original source text.
#[derive(Clone, Copy, PartialEq, Eq, Structural, Debug)]
pub struct Span {
    pub start: usize,
    pub end: usize,
}

impl Span {
    /// A span is well formed when it does not end before it starts.
    pub open spec fn wf(self) -> bool {
        self.start <= self.end
    }

    /// The merge of two spans: the smallest range covering both.
    pub open spec fn spec_merge(a: Span, b: Span) -> Span {
        Span {
            start: if a.start <= b.start { a.start } else { b.start },
            end: if a.end >= b.end { a.end } else { b.end },
        }
    }

    /// Whether `self` lies entirely inside `outer`.
    pub open spec fn inside(self, outer: Span) -> bool {
        outer.start <= self.start && self.end <= outer.end
    }

    pub fn new(start: usize, end: usize) -> (s: Span)
        ensures
            s.start == start,
            s.end == end,
    {
        Span { start, end }
    }

    /// Merge `self` with `other`, covering both ranges.
    pub fn extend(self, other: Span) -> (s: Span)
        ensures
            s == Span::spec_merge(self, other),
    {
        Span {
            start: if self.start <= other.start { self.start } else { other.start },
            end: if self.end >= other.end { self.end } else { other.end },
        }
    }
}

/// Merging covers both arguments and adds nothing below the smaller start
/// nor above the larger end, and it is commutative in effect.
pub proof fn lemma_merge_covers(a: Span, b: Span)
    ensures
        Span::spec_merge(a, b).start <= a.start,
        Span::spec_merge(a, b).start <= b.start,
        Span::spec_merge(a, b).end >= a.end,
        Span::spec_merge(a, b).end >= b.end,
        Span::spec_merge(a, b).start == a.start || Span::spec_merge(a, b).start == b.start,
        Span::spec_merge(a, b).end == a.end || Span::spec_merge(a, b).end == b.end,
        Span::spec_merge(a, b) == Span::spec_merge(b, a),
        a.wf() && b.wf() ==> Span::spec_merge(a, b).wf(),
{
}

/// A value paired with the span of the source text it came from.
#[derive(Clone, Debug)]
pub struct SrcNode<T> {
    pub value: T,
    pub span: Span,
}

impl<T> SrcNode<T> {
    /// The only constructor: nodes are never mutated after construction.
    pub fn new(value: T, span: Span) -> (n: SrcNode<T>)
        ensures
            n.value == value,
            n.span == span,
    {
        SrcNode { value, span }
    }

    pub fn span(&self) -> (s: Span)
        ensures
            s == self.span,
    {
        self.span
    }
}

} // verus!
