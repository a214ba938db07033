//! An association container keyed by strings, with a `Map<Seq<char>, V>` view.
//!
//! Cached records and manifest entries are keyed by article titles and path
//! strings. The container stores its entries as a vector of pairs whose keys
//! are pairwise distinct, and all contracts speak about the map abstraction.

use vstd::prelude::*;

verus! {

/// Map from strings to values, stored as a vector of pairs with distinct keys.
#[derive(Debug, Clone)]
pub struct StringMap<V> {
    pub pairs: Vec<(String, V)>,
}

/// Map abstraction of a sequence of key-value pairs: later pairs win.
pub open spec fn map_of<V>(pairs: Seq<(String, V)>) -> Map<Seq<char>, V>
    decreases pairs.len(),
{
    if pairs.len() == 0 {
        Map::empty()
    } else {
        map_of(pairs.drop_last()).insert(pairs.last().0@, pairs.last().1)
    }
}

/// The domain of `map_of(pairs)` is exactly the set of stored keys.
pub proof fn lemma_map_of_domain<V>(pairs: Seq<(String, V)>, k: Seq<char>)
    ensures
        map_of(pairs).contains_key(k) <==> exists|i: int|
            0 <= i < pairs.len() && #[trigger] pairs[i].0@ == k,
    decreases pairs.len(),
{
    if pairs.len() == 0 {
        assert(map_of(pairs) =~= Map::<Seq<char>, V>::empty());
    } else {
        let prev = pairs.drop_last();
        lemma_map_of_domain(prev, k);
        assert(map_of(pairs) == map_of(prev).insert(pairs.last().0@, pairs.last().1));
        if map_of(pairs).contains_key(k) {
            if k == pairs.last().0@ {
                assert(pairs[pairs.len() - 1].0@ == k);
            } else {
                assert(map_of(prev).contains_key(k));
                let i = choose|i: int| 0 <= i < prev.len() && #[trigger] prev[i].0@ == k;
                assert(prev[i] == pairs[i]);
                assert(pairs[i].0@ == k);
            }
        }
        if exists|i: int| 0 <= i < pairs.len() && #[trigger] pairs[i].0@ == k {
            let i = choose|i: int| 0 <= i < pairs.len() && #[trigger] pairs[i].0@ == k;
            if i < pairs.len() - 1 {
                assert(prev[i].0@ == k);
                assert(map_of(prev).contains_key(k));
            }
            assert(map_of(pairs).contains_key(k));
        }
    }
}

/// With distinct keys, position `i` gives the value the map holds for its key.
pub proof fn lemma_map_of_get<V>(pairs: Seq<(String, V)>, i: int)
    requires
        0 <= i < pairs.len(),
        forall|a: int, b: int| 0 <= a < b < pairs.len() ==> pairs[a].0@ != pairs[b].0@,
    ensures
        map_of(pairs).contains_key(pairs[i].0@),
        map_of(pairs)[pairs[i].0@] == pairs[i].1,
    decreases pairs.len(),
{
    if i == pairs.len() - 1 {
    } else {
        lemma_map_of_get(pairs.drop_last(), i);
        assert(pairs.drop_last()[i] == pairs[i]);
        assert(pairs[i].0@ != pairs[pairs.len() - 1].0@);
    }
}

/// Replacing the pair at position `i` by one with the same key view updates
/// the map at that key alone.
proof fn lemma_map_of_update<V>(old_pairs: Seq<(String, V)>, new_pairs: Seq<(String, V)>, i: int)
    requires
        0 <= i < old_pairs.len(),
        new_pairs.len() == old_pairs.len(),
        new_pairs[i].0@ == old_pairs[i].0@,
        forall|j: int| 0 <= j < old_pairs.len() && j != i ==> new_pairs[j] == old_pairs[j],
        forall|a: int, b: int| 0 <= a < b < old_pairs.len() ==> old_pairs[a].0@ != old_pairs[b].0@,
    ensures
        map_of(new_pairs) == map_of(old_pairs).insert(new_pairs[i].0@, new_pairs[i].1),
    decreases old_pairs.len(),
{
    if i == old_pairs.len() - 1 {
        assert(new_pairs.drop_last() =~= old_pairs.drop_last());
    } else {
        lemma_map_of_update(old_pairs.drop_last(), new_pairs.drop_last(), i);
        assert(new_pairs.drop_last()[i] == new_pairs[i]);
        assert(new_pairs[new_pairs.len() - 1] == old_pairs[old_pairs.len() - 1]);
        assert(old_pairs[i].0@ != old_pairs[old_pairs.len() - 1].0@);
        assert(map_of(new_pairs) =~= map_of(old_pairs).insert(new_pairs[i].0@, new_pairs[i].1));
    }
}

/// Removing the pair at position `i` removes exactly its key from the map.
proof fn lemma_map_of_remove<V>(pairs: Seq<(String, V)>, i: int)
    requires
        0 <= i < pairs.len(),
        forall|a: int, b: int| 0 <= a < b < pairs.len() ==> pairs[a].0@ != pairs[b].0@,
    ensures
        map_of(pairs.remove(i)) == map_of(pairs).remove(pairs[i].0@),
    decreases pairs.len(),
{
    if i == pairs.len() - 1 {
        assert(pairs.remove(i) =~= pairs.drop_last());
        assert forall|k: Seq<char>| #[trigger] map_of(pairs.drop_last()).contains_key(k) implies k
            != pairs[i].0@ by {
            lemma_map_of_domain(pairs.drop_last(), k);
            if k == pairs[i].0@ {
                let j = choose|j: int|
                    0 <= j < pairs.drop_last().len() && #[trigger] pairs.drop_last()[j].0@ == k;
                assert(pairs[j].0@ == pairs[i].0@);
            }
        }
        assert(map_of(pairs.drop_last()) =~= map_of(pairs).remove(pairs[i].0@));
    } else {
        lemma_map_of_remove(pairs.drop_last(), i);
        assert(pairs.remove(i).drop_last() =~= pairs.drop_last().remove(i));
        assert(pairs.remove(i)[pairs.remove(i).len() - 1] == pairs[pairs.len() - 1]);
        assert(pairs[i].0@ != pairs[pairs.len() - 1].0@);
        assert(map_of(pairs.remove(i)) =~= map_of(pairs).remove(pairs[i].0@));
    }
}

impl<V> StringMap<V> {
    /// Keys are pairwise distinct, so each key names exactly one value.
    pub open spec fn wf(&self) -> bool {
        forall|i: int, j: int|
            0 <= i < j < self.pairs@.len() ==> self.pairs@[i].0@ != self.pairs@[j].0@
    }

    pub open spec fn view(&self) -> Map<Seq<char>, V> {
        map_of(self.pairs@)
    }

    /// Sequence of entries in storage order.
    pub open spec fn entries(&self) -> Seq<(String, V)> {
        self.pairs@
    }

    pub fn new() -> (r: Self)
        ensures
            r.wf(),
            r@ == Map::<Seq<char>, V>::empty(),
            r.entries() == Seq::<(String, V)>::empty(),
    {
        StringMap { pairs: Vec::new() }
    }

    pub fn len(&self) -> (r: usize)
        ensures
            r == self.entries().len(),
    {
        self.pairs.len()
    }

    pub fn is_empty(&self) -> (r: bool)
        requires
            self.wf(),
        ensures
            r == self@.is_empty(),
            r == (self.entries().len() == 0),
    {
        proof {
            if self.pairs@.len() == 0 {
                assert(map_of(self.pairs@) =~= Map::<Seq<char>, V>::empty());
                assert(self@.dom() =~= Set::<Seq<char>>::empty());
            } else {
                lemma_map_of_domain(self.pairs@, self.pairs@[0].0@);
                assert(self@.contains_key(self.pairs@[0].0@));
            }
        }
        self.pairs.len() == 0
    }

    /// Index of the pair holding `key`, if any.
    fn find(&self, key: &String) -> (r: Option<usize>)
        requires
            self.wf(),
        ensures
            match r {
                Some(i) => i < self.pairs@.len() && #[trigger] self.pairs@[i as int].0@ == key@,
                None => forall|i: int|
                    0 <= i < self.pairs@.len() ==> #[trigger] self.pairs@[i].0@ != key@,
            },
    {
        let n = self.pairs.len();
        for i in 0..n
            invariant
                n == self.pairs@.len(),
                forall|j: int| 0 <= j < i ==> #[trigger] self.pairs@[j].0@ != key@,
        {
            if self.pairs[i].0 == *key {
                return Some(i);
            }
        }
        None
    }

    pub fn contains_key(&self, key: &String) -> (r: bool)
        requires
            self.wf(),
        ensures
            r == self@.contains_key(key@),
    {
        proof {
            lemma_map_of_domain(self.pairs@, key@);
        }
        self.find(key).is_some()
    }

    pub fn get(&self, key: &String) -> (r: Option<&V>)
        requires
            self.wf(),
        ensures
            match r {
                Some(v) => self@.contains_key(key@) && *v == self@[key@],
                None => !self@.contains_key(key@),
            },
    {
        proof {
            lemma_map_of_domain(self.pairs@, key@);
        }
        match self.find(key) {
            Some(i) => {
                proof {
                    lemma_map_of_get(self.pairs@, i as int);
                }
                Some(&self.pairs[i].1)
            },
            None => None,
        }
    }

    /// Insert or replace; an existing pair keeps its position in storage order.
    pub fn insert(&mut self, key: String, value: V)
        requires
            old(self).wf(),
        ensures
            final(self).wf(),
            final(self)@ == old(self)@.insert(key@, value),
            old(self)@.contains_key(key@) ==> exists|i: int|
                0 <= i < old(self).entries().len() && (#[trigger] old(self).entries()[i]).0@
                    == key@ && final(self).entries() == old(self).entries().update(i, (key, value)),
            !old(self)@.contains_key(key@) ==> final(self).entries() == old(
                self,
            ).entries().push((key, value)),
            forall|i: int|
                0 <= i < old(self).entries().len() ==> final(self).entries()[i].0@ == old(
                    self,
                ).entries()[i].0@,
    {
        proof {
            lemma_map_of_domain(self.pairs@, key@);
        }
        match self.find(&key) {
            Some(i) => {
                let ghost old_pairs = self.pairs@;
                self.pairs.set(i, (key, value));
                proof {
                    assert(old_pairs[i as int].0@ == key@);
                    lemma_map_of_update(old_pairs, self.pairs@, i as int);
                    assert(self.pairs@ =~= old_pairs.update(i as int, (key, value)));
                    assert((#[trigger] old(self).entries()[i as int]).0@ == key@);
                    assert(self.entries() == old(self).entries().update(i as int, (key, value)));
                }
            },
            None => {
                let ghost old_pairs = self.pairs@;
                self.pairs.push((key, value));
                proof {
                    assert(self.pairs@.drop_last() =~= old_pairs);
                }
            },
        }
    }

    /// Remove the pair holding `key`, if any; other pairs keep their order.
    pub fn remove(&mut self, key: &String)
        requires
            old(self).wf(),
        ensures
            final(self).wf(),
            final(self)@ == old(self)@.remove(key@),
            old(self)@.contains_key(key@) ==> exists|i: int|
                0 <= i < old(self).entries().len() && (#[trigger] old(self).entries()[i]).0@
                    == key@ && final(self).entries() == old(self).entries().remove(i),
            !old(self)@.contains_key(key@) ==> final(self).entries() == old(self).entries(),
    {
        proof {
            lemma_map_of_domain(self.pairs@, key@);
        }
        match self.find(key) {
            Some(i) => {
                let ghost old_pairs = self.pairs@;
                self.pairs.remove(i);
                proof {
                    lemma_map_of_remove(old_pairs, i as int);
                    assert(self.pairs@ =~= old_pairs.remove(i as int));
                    assert(map_of(self.pairs@) == map_of(old_pairs).remove(key@));
                    assert((#[trigger] old(self).entries()[i as int]).0@ == key@);
                    assert(self.entries() == old(self).entries().remove(i as int));
                }
            },
            None => {
                proof {
                    assert(!old(self)@.contains_key(key@));
                    assert(old(self)@.remove(key@) =~= old(self)@);
                }
            },
        }
    }

    /// Index of the pair holding `key`, if any.
    pub fn index_of(&self, key: &String) -> (r: Option<usize>)
        requires
            self.wf(),
        ensures
            match r {
                Some(i) => i < self.entries().len() && self.entries()[i as int].0@ == key@
                    && self@.contains_key(key@),
                None => !self@.contains_key(key@),
            },
    {
        proof {
            lemma_map_of_domain(self.pairs@, key@);
        }
        match self.find(key) {
            Some(i) => {
                proof {
                    lemma_map_of_get(self.pairs@, i as int);
                }
                Some(i)
            },
            None => None,
        }
    }

    /// Replace the value at a storage position, keeping its key.
    pub fn set_value_at(&mut self, i: usize, value: V)
        requires
            old(self).wf(),
            i < old(self).entries().len(),
        ensures
            final(self).wf(),
            final(self).entries().len() == old(self).entries().len(),
            final(self).entries()[i as int].0 == old(self).entries()[i as int].0,
            final(self).entries()[i as int].1 == value,
            forall|j: int|
                0 <= j < old(self).entries().len() && j != i ==> final(self).entries()[j] == old(
                    self,
                ).entries()[j],
            final(self)@ == old(self)@.insert(old(self).entries()[i as int].0@, value),
    {
        let ghost old_pairs = self.pairs@;
        let key = self.pairs[i].0.clone();
        self.pairs.set(i, (key, value));
        proof {
            lemma_map_of_update(old_pairs, self.pairs@, i as int);
        }
    }

    /// Borrow the entry at a storage position.
    pub fn entry_at(&self, i: usize) -> (r: (&String, &V))
        requires
            i < self.entries().len(),
        ensures
            *r.0 == self.entries()[i as int].0,
            *r.1 == self.entries()[i as int].1,
    {
        (&self.pairs[i].0, &self.pairs[i].1)
    }

    /// The key at a storage position names the value the map holds for it.
    pub proof fn lemma_entry_in_map(&self, i: int)
        requires
            self.wf(),
            0 <= i < self.entries().len(),
        ensures
            self@.contains_key(self.entries()[i].0@),
            self@[self.entries()[i].0@] == self.entries()[i].1,
    {
        lemma_map_of_get(self.pairs@, i);
    }
}

impl<V: Copy> StringMap<V> {
    /// Insert every entry of `other`; on shared keys, `other`'s value wins.
    pub fn insert_all(&mut self, other: &Self)
        requires
            old(self).wf(),
        ensures
            final(self).wf(),
            final(self)@ == old(self)@.union_prefer_right(map_of(other.pairs@)),
    {
        let n = other.pairs.len();
        for i in 0..n
            invariant
                n == other.pairs@.len(),
                self.wf(),
                self@ == old(self)@.union_prefer_right(map_of(other.pairs@.take(i as int))),
        {
            let key = other.pairs[i].0.clone();
            let value = other.pairs[i].1;
            self.insert(key, value);
            proof {
                assert(other.pairs@.take(i as int + 1).drop_last() =~= other.pairs@.take(i as int));
                assert(other.pairs@.take(i as int + 1).last() == other.pairs@[i as int]);
                assert(self@ =~= old(self)@.union_prefer_right(
                    map_of(other.pairs@.take(i as int + 1)),
                ));
            }
        }
        proof {
            assert(other.pairs@.take(n as int) =~= other.pairs@);
        }
    }
}

/// A copy of a map from strings to strings, with the same entries.
pub fn clone_string_map(m: &StringMap<String>) -> (r: StringMap<String>)
    ensures
        r.pairs@ == m.pairs@,
        r@ == m@,
        r.wf() == m.wf(),
        r.entries() == m.entries(),
{
    let mut pairs: Vec<(String, String)> = Vec::new();
    let n = m.pairs.len();
    for i in 0..n
        invariant
            n == m.pairs@.len(),
            pairs@.len() == i,
            forall|j: int| 0 <= j < i ==> pairs@[j] == m.pairs@[j],
    {
        pairs.push((m.pairs[i].0.clone(), m.pairs[i].1.clone()));
    }
    proof {
        assert(pairs@ =~= m.pairs@);
    }
    StringMap { pairs }
}

impl<V> StringMap<V> {
    /// Every key in the map is the key of some stored pair.
    pub proof fn lemma_key_has_entry(&self, key: Seq<char>)
        requires
            self@.contains_key(key),
        ensures
            exists|i: int|
                0 <= i < self.entries().len() && #[trigger] self.entries()[i].0@ == key,
    {
        lemma_map_of_domain(self.pairs@, key);
        let i = choose|i: int| 0 <= i < self.pairs@.len() && #[trigger] self.pairs@[i].0@ == key;
        assert(self.entries()[i].0@ == key);
    }
}

} // verus!
