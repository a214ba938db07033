//! A small set container with a `Set<T>` view, stored without duplicates.
//!
//! Tag sets and constraint sets are deduplicated disjunctions: inserting a
//! value a second time must leave the set unchanged.

use vstd::prelude::*;

verus! {

/// Equality decidable in executable code, agreeing with spec equality.
pub trait ItemEq: Sized {
    fn item_eq(&self, other: &Self) -> (r: bool)
        ensures
            r == (*self == *other),
    ;
}

impl ItemEq for u32 {
    fn item_eq(&self, other: &Self) -> (r: bool)
        ensures
            r == (*self == *other),
    {
        *self == *other
    }
}

impl ItemEq for u64 {
    fn item_eq(&self, other: &Self) -> (r: bool)
        ensures
            r == (*self == *other),
    {
        *self == *other
    }
}

/// Set abstraction of a sequence of items.
pub open spec fn set_of<T>(items: Seq<T>) -> Set<T>
    decreases items.len(),
{
    if items.len() == 0 {
        Set::empty()
    } else {
        set_of(items.drop_last()).insert(items.last())
    }
}

/// Membership in `set_of(items)` is membership in the sequence.
pub proof fn lemma_set_of_contains<T>(items: Seq<T>, x: T)
    ensures
        set_of(items).contains(x) <==> exists|i: int| 0 <= i < items.len() && items[i] == x,
    decreases items.len(),
{
    if items.len() == 0 {
        assert(set_of(items) =~= Set::<T>::empty());
    } else {
        lemma_set_of_contains(items.drop_last(), x);
        if set_of(items).contains(x) {
            if x == items.last() {
                assert(items[items.len() - 1] == x);
            } else {
                let i = choose|i: int|
                    0 <= i < items.drop_last().len() && items.drop_last()[i] == x;
                assert(items[i] == x);
            }
        }
        if exists|i: int| 0 <= i < items.len() && items[i] == x {
            let i = choose|i: int| 0 <= i < items.len() && items[i] == x;
            if i < items.len() - 1 {
                assert(items.drop_last()[i] == x);
            }
        }
    }
}

/// A set of items, stored as a vector without duplicates.
#[derive(Debug, Clone)]
pub struct DedupSet<T> {
    pub items: Vec<T>,
}

impl<T: ItemEq + Copy> DedupSet<T> {
    /// Items are pairwise distinct.
    pub open spec fn wf(&self) -> bool {
        forall|i: int, j: int| 0 <= i < j < self.items@.len() ==> self.items@[i] != self.items@[j]
    }

    pub open spec fn view(&self) -> Set<T> {
        set_of(self.items@)
    }

    /// Sequence of items in storage order.
    pub open spec fn entries(&self) -> Seq<T> {
        self.items@
    }

    pub fn new() -> (r: Self)
        ensures
            r.wf(),
            r@ == Set::<T>::empty(),
            r.entries() == Seq::<T>::empty(),
    {
        DedupSet { items: Vec::new() }
    }

    pub fn len(&self) -> (r: usize)
        ensures
            r == self.entries().len(),
    {
        self.items.len()
    }

    pub fn is_empty(&self) -> (r: bool)
        ensures
            r == (self.entries().len() == 0),
            r == self@.is_empty(),
    {
        proof {
            if self.items@.len() == 0 {
                assert(self@ =~= Set::<T>::empty());
            } else {
                lemma_set_of_contains(self.items@, self.items@[0]);
                assert(self@.contains(self.items@[0]));
            }
        }
        self.items.len() == 0
    }

    #[verifier::loop_isolation(false)]
    pub fn contains(&self, x: &T) -> (r: bool)
        ensures
            r == self@.contains(*x),
    {
        proof {
            lemma_set_of_contains(self.items@, *x);
        }
        let n = self.items.len();
        for i in 0..n
            invariant
                n == self.items@.len(),
                forall|j: int| 0 <= j < i ==> self.items@[j] != *x,
        {
            if self.items[i].item_eq(x) {
                return true;
            }
        }
        false
    }

    /// Insert a value; inserting one already present leaves the set unchanged.
    pub fn insert(&mut self, x: T)
        requires
            old(self).wf(),
        ensures
            final(self).wf(),
            final(self)@ == old(self)@.insert(x),
            old(self)@.contains(x) ==> final(self).entries() == old(self).entries(),
            !old(self)@.contains(x) ==> final(self).entries() == old(self).entries().push(x),
    {
        if self.contains(&x) {
            proof {
                assert(old(self)@.insert(x) =~= old(self)@);
            }
        } else {
            let ghost old_items = self.items@;
            self.items.push(x);
            proof {
                assert(self.items@.drop_last() =~= old_items);
                lemma_set_of_contains(old_items, x);
            }
        }
    }

    /// Insert every item of `other`.
    pub fn extend_from(&mut self, other: &Self)
        requires
            old(self).wf(),
        ensures
            final(self).wf(),
            final(self)@ == old(self)@.union(set_of(other.items@)),
    {
        let n = other.items.len();
        for i in 0..n
            invariant
                n == other.items@.len(),
                self.wf(),
                self@ == old(self)@.union(set_of(other.items@.take(i as int))),
        {
            let ghost before = self@;
            self.insert(other.items[i]);
            proof {
                assert(other.items@.take(i as int + 1).drop_last() =~= other.items@.take(i as int));
                assert(other.items@.take(i as int + 1).last() == other.items@[i as int]);
                assert(self@ =~= old(self)@.union(set_of(other.items@.take(i as int + 1))));
            }
        }
        proof {
            assert(other.items@.take(n as int) =~= other.items@);
        }
    }

    /// A copy with the same items in the same order.
    pub fn duplicate(&self) -> (r: Self)
        ensures
            r.entries() == self.entries(),
            r@ == self@,
            r.wf() == self.wf(),
    {
        let mut items: Vec<T> = Vec::new();
        let n = self.items.len();
        for i in 0..n
            invariant
                n == self.items@.len(),
                items@.len() == i,
                forall|j: int| 0 <= j < i ==> items@[j] == self.items@[j],
        {
            items.push(self.items[i]);
        }
        proof {
            assert(items@ =~= self.items@);
        }
        DedupSet { items }
    }

    /// Borrow the item at a storage position.
    pub fn item_at(&self, i: usize) -> (r: &T)
        requires
            i < self.entries().len(),
        ensures
            *r == self.entries()[i as int],
            self@.contains(self.entries()[i as int]),
    {
        proof {
            lemma_set_of_contains(self.items@, self.items@[i as int]);
        }
        &self.items[i]
    }
}

/// A deduplicated set holds a value at one position at most: merging an
/// identical condition a second time cannot add a second copy.
pub proof fn lemma_dedup_stores_once<T: ItemEq + Copy>(s: DedupSet<T>, x: T, i: int, j: int)
    requires
        s.wf(),
        0 <= i < s.entries().len(),
        0 <= j < s.entries().len(),
        s.entries()[i] == x,
        s.entries()[j] == x,
    ensures
        i == j,
{
}

} // verus!
