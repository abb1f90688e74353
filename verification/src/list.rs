//! A singly-linked list with owned nodes.

use vstd::prelude::*;

verus! {

/// A singly-linked list with owned nodes.
pub enum List<T> {
    Node(T, Box<List<T>>),
    Nil,
}

impl<T> List<T> {
    /// The elements of the list, in order.
    pub open spec fn to_seq(self) -> Seq<T>
        decreases self,
    {
        match self {
            List::Node(d, next) => seq![d] + next.to_seq(),
            List::Nil => Seq::empty(),
        }
    }

    /// The number of elements.
    pub fn len(&self) -> (n: usize)
        requires
            self.to_seq().len() <= usize::MAX,
        ensures
            n == self.to_seq().len(),
        decreases *self,
    {
        match self {
            List::Node(_, next) => 1 + next.len(),
            List::Nil => 0,
        }
    }

    /// All elements in order, consuming the list.
    pub fn to_vec(self) -> (v: Vec<T>)
        ensures
            v@ == self.to_seq(),
        decreases self,
    {
        match self {
            List::Nil => Vec::new(),
            List::Node(d, next) => {
                let mut v: Vec<T> = Vec::new();
                v.push(d);
                let mut rest = next.to_vec();
                v.append(&mut rest);
                proof {
                    assert(v@ =~= self.to_seq());
                }
                v
            },
        }
    }

    /// Build a list by folding the elements of `v` onto the front of an
    /// empty list; the result therefore holds `v`'s elements in reverse
    /// order.
    pub fn from_vec(v: Vec<T>) -> (l: List<T>)
        ensures
            l.to_seq() == v@.reverse(),
    {
        let ghost orig = v@;
        let mut v = v;
        let total = v.len();
        let mut l = List::Nil;
        proof {
            assert(orig.subrange(0, 0).reverse() =~= l.to_seq());
        }
        let mut k: usize = 0;
        while v.len() > 0
            invariant
                orig.len() == total,
                k + v@.len() == orig.len(),
                v@ =~= orig.subrange(k as int, orig.len() as int),
                l.to_seq() == orig.subrange(0, k as int).reverse(),
            decreases v@.len(),
        {
            let d = v.remove(0);
            l = List::Node(d, Box::new(l));
            proof {
                assert(d == orig[k as int]);
                assert(orig.subrange(0, k as int + 1).drop_last() =~= orig.subrange(0, k as int));
                assert(orig.subrange(0, k as int + 1).last() == orig[k as int]);
                assert(seq![d] + orig.subrange(0, k as int).reverse() =~= orig.subrange(
                    0,
                    k as int + 1,
                ).reverse());
                assert(v@ =~= orig.subrange(k as int + 1, orig.len() as int));
            }
            k = k + 1;
        }
        proof {
            assert(orig.subrange(0, orig.len() as int) =~= orig);
        }
        l
    }
}

} // verus!
