//! A bounded bag that keeps only the smallest elements it is offered.

use vstd::prelude::*;

use vstd::multiset::Multiset;

verus! {

/// True when `s` is sorted in ascending order.
pub open spec fn sorted(s: Seq<u64>) -> bool {
    forall|i: int, j: int| 0 <= i <= j < s.len() ==> s[i] <= s[j]
}

/// `x` placed into the sorted sequence `s`, after any equal elements.
pub open spec fn spec_sorted_insert(s: Seq<u64>, x: u64) -> Seq<u64>
    decreases s.len(),
{
    if s.len() == 0 {
        seq![x]
    } else if s.last() <= x {
        s.push(x)
    } else {
        spec_sorted_insert(s.drop_last(), x).push(s.last())
    }
}

/// Inserting into a sorted sequence keeps it sorted, grows it by one,
/// and keeps its elements plus the new one.
pub proof fn lemma_sorted_insert(s: Seq<u64>, x: u64)
    requires
        sorted(s),
    ensures
        sorted(spec_sorted_insert(s, x)),
        spec_sorted_insert(s, x).len() == s.len() + 1,
        spec_sorted_insert(s, x).to_multiset() == s.to_multiset().insert(x),
    decreases s.len(),
{
    let r = spec_sorted_insert(s, x);
    if s.len() == 0 {
        assert(seq![x].drop_last() =~= Seq::<u64>::empty());
        assert(r =~= Seq::<u64>::empty().push(x));
        s.to_multiset_ensures();
        Seq::<u64>::empty().to_multiset_ensures();
        assert(Seq::<u64>::empty().to_multiset() =~= Multiset::<u64>::empty());
        assert(r.to_multiset() =~= s.to_multiset().insert(x));
    } else if s.last() <= x {
        s.to_multiset_ensures();
        assert(r.to_multiset() =~= s.to_multiset().insert(x));
    } else {
        assert(sorted(s.drop_last())) by {
            assert(forall|i: int, j: int|
                0 <= i <= j < s.len() - 1 ==> s.drop_last()[i] == s[i] && s.drop_last()[j]
                    == s[j]);
        }
        lemma_sorted_insert(s.drop_last(), x);
        let inner = spec_sorted_insert(s.drop_last(), x);
        assert forall|i: int, j: int| 0 <= i <= j < r.len() implies r[i] <= r[j] by {
            if j < r.len() - 1 {
                assert(r[i] == inner[i] && r[j] == inner[j]);
            } else if i < r.len() - 1 {
                assert(r[i] == inner[i]);
                // every element of `inner` is an old element or `x`,
                // both at most `s.last()`
                inner.to_multiset_ensures();
                assert(inner.to_multiset().contains(inner[i]));
                assert(s.drop_last().to_multiset().insert(x).contains(inner[i]));
                if inner[i] == x {
                } else {
                    assert(s.drop_last().to_multiset().contains(inner[i]));
                    s.drop_last().to_multiset_ensures();
                    let k = choose|k: int|
                        0 <= k < s.drop_last().len() && s.drop_last()[k] == inner[i];
                    assert(s[k] <= s.last());
                }
            }
        }
        inner.to_multiset_ensures();
        s.to_multiset_ensures();
        s.drop_last().to_multiset_ensures();
        assert(s =~= s.drop_last().push(s.last()));
        assert(s.drop_last().push(s.last()).to_multiset() =~= s.drop_last().to_multiset().insert(
            s.last(),
        ));
        assert(r.to_multiset() =~= inner.to_multiset().insert(s.last()));
        assert(s.to_multiset() =~= s.drop_last().to_multiset().insert(s.last()));
        assert(r.to_multiset() =~= s.to_multiset().insert(x));
    }
}

/// Keeps the smallest `capacity` elements ever inserted, sorted
/// ascending; the greatest kept element plays the role of a max-heap
/// root.
#[derive(Debug)]
pub struct BoundedHeap {
    pub(crate) capacity: usize,
    pub(crate) items: Vec<u64>,
}

impl BoundedHeap {
    #[verifier::type_invariant]
    pub(crate) open(crate) spec fn type_inv(self) -> bool {
        &&& sorted(self.items@)
        &&& self.items@.len() <= self.capacity
    }

    /// The kept elements, in ascending order.
    pub open(crate) spec fn spec_items(self) -> Seq<u64> {
        self.items@
    }

    pub open(crate) spec fn spec_capacity(self) -> usize {
        self.capacity
    }

    /// An empty bag for at most `capacity` elements.
    pub fn new(capacity: usize) -> (r: BoundedHeap)
        ensures
            r.spec_items() == Seq::<u64>::empty(),
            r.spec_capacity() == capacity,
    {
        BoundedHeap { capacity, items: Vec::new() }
    }

    pub fn capacity(&self) -> (r: usize)
        ensures
            r == self.spec_capacity(),
    {
        self.capacity
    }

    pub fn len(&self) -> (r: usize)
        ensures
            r == self.spec_items().len(),
    {
        self.items.len()
    }

    pub fn is_empty(&self) -> (r: bool)
        ensures
            r == (self.spec_items().len() == 0),
    {
        self.items.is_empty()
    }

    pub fn is_full(&self) -> (r: bool)
        ensures
            r == (self.spec_items().len() == self.spec_capacity()),
    {
        self.items.len() == self.capacity
    }

    /// The greatest kept element, if any.
    pub fn peek(&self) -> (r: Option<&u64>)
        ensures
            r is Some <==> self.spec_items().len() > 0,
            r is Some ==> *r.unwrap() == self.spec_items().last(),
            r is Some ==> forall|i: int|
                0 <= i < self.spec_items().len() ==> #[trigger] self.spec_items()[i]
                    <= *r.unwrap(),
    {
        proof {
            use_type_invariant(self);
        }
        if self.items.len() == 0 {
            None
        } else {
            Some(&self.items[self.items.len() - 1])
        }
    }

    /// Adds `x`; when that would exceed the capacity, the greatest
    /// element -- possibly `x` itself -- is dropped.
    pub fn insert(&mut self, x: u64)
        ensures
            ({
                let grown = spec_sorted_insert(old(self).spec_items(), x);
                final(self).spec_items() == if grown.len() > old(self).spec_capacity() {
                    grown.drop_last()
                } else {
                    grown
                }
            }),
            final(self).spec_capacity() == old(self).spec_capacity(),
    {
        proof {
            use_type_invariant(&*self);
            lemma_sorted_insert(self.items@, x);
        }
        let ghost pre = self.items@;
        let mut items: Vec<u64> = Vec::new();
        std::mem::swap(&mut items, &mut self.items);
        proof {
            assert(pre.take(pre.len() as int) =~= pre);
            assert(pre.skip(pre.len() as int) =~= Seq::<u64>::empty());
            assert(spec_sorted_insert(pre.take(pre.len() as int), x) + pre.skip(
                pre.len() as int,
            ) =~= spec_sorted_insert(pre, x));
        }
        // find the insertion point: after all elements at most `x`
        let mut pos: usize = items.len();
        while pos > 0 && items[pos - 1] > x
            invariant
                pos <= items@.len(),
                items@ == pre,
                sorted(pre),
                forall|k: int| pos <= k < pre.len() ==> #[trigger] pre[k] > x,
                spec_sorted_insert(pre, x) == spec_sorted_insert(
                    pre.take(pos as int),
                    x,
                ) + pre.skip(pos as int),
            decreases pos,
        {
            proof {
                assert(pre.take(pos as int).drop_last() =~= pre.take(pos as int - 1));
                assert(spec_sorted_insert(pre.take(pos as int), x) == spec_sorted_insert(
                    pre.take(pos as int - 1),
                    x,
                ).push(pre[pos as int - 1]));
                assert(spec_sorted_insert(pre.take(pos as int - 1), x).push(
                    pre[pos as int - 1],
                ) + pre.skip(pos as int) =~= spec_sorted_insert(pre.take(pos as int - 1), x)
                    + pre.skip(pos as int - 1));
            }
            pos -= 1;
        }
        proof {
            if pos > 0 {
                assert(pre.take(pos as int).last() == pre[pos as int - 1]);
                assert(spec_sorted_insert(pre.take(pos as int), x) == pre.take(
                    pos as int,
                ).push(x));
            } else {
                assert(pre.take(0) =~= Seq::<u64>::empty());
                assert(spec_sorted_insert(pre.take(0), x) =~= seq![x]);
            }
            assert(spec_sorted_insert(pre, x) =~= pre.take(pos as int).push(x) + pre.skip(
                pos as int,
            ));
        }
        items.insert(pos, x);
        proof {
            assert(items@ =~= pre.take(pos as int).push(x) + pre.skip(pos as int));
            assert(items@ == spec_sorted_insert(pre, x));
        }
        if items.len() > self.capacity {
            let dropped = items.pop();
            proof {
                assert(items@ =~= spec_sorted_insert(pre, x).drop_last());
                assert(sorted(items@)) by {
                    assert(forall|i: int, j: int|
                        0 <= i <= j < items@.len() ==> items@[i] == spec_sorted_insert(pre, x)[i]
                            && items@[j] == spec_sorted_insert(pre, x)[j]);
                }
            }
        }
        std::mem::swap(&mut items, &mut self.items);
    }

    /// The kept elements, ascending.
    pub fn into_inner(self) -> (r: Vec<u64>)
        ensures
            r@ == self.spec_items(),
    {
        self.items
    }

    /// The kept elements, ascending.
    pub fn into_sorted_vec(self) -> (r: Vec<u64>)
        ensures
            r@ == self.spec_items(),
            sorted(r@),
    {
        proof {
            use_type_invariant(&self);
        }
        self.items
    }
}

} // verus!
