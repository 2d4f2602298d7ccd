//! A map, kept as a list of entries in the order of insertion.
use vstd::prelude::*;

use crate::text::same_text;

verus! {

/// What can be a key of a map: a type whose values can be told apart by what they stand for.
pub trait Key: View + Sized {
    /// Whether two keys stand for the same.
    fn same(&self, other: &Self) -> (r: bool)
        ensures
            r == (self@ == other@),
    ;
}

impl Key for String {
    fn same(&self, other: &String) -> (r: bool) {
        same_text(self.as_str(), other.as_str())
    }
}

impl Key for i64 {
    fn same(&self, other: &i64) -> (r: bool) {
        *self == *other
    }
}

impl<A: Key, B: Key> Key for (A, B) {
    fn same(&self, other: &(A, B)) -> (r: bool) {
        self.0.same(&other.0) && self.1.same(&other.1)
    }
}

/// A map. No two entries have the same key.
#[derive(Debug)]
pub struct Dict<K, V> {
    entries: Vec<(K, V)>,
}

impl<K: Key, V> View for Dict<K, V> {
    type V = Map<K::V, V>;

    closed spec fn view(&self) -> Map<K::V, V> {
        Map::new(
            |k: K::V| exists|i: int| self.holds_at(k, i),
            |k: K::V| self.entries@[choose|i: int| self.holds_at(k, i)].1,
        )
    }
}

impl<K: Key, V> Dict<K, V> {
    spec fn holds_at(self, key: K::V, i: int) -> bool {
        0 <= i < self.entries@.len() && self.entries@[i].0@ == key
    }

    /// No key occurs twice.
    pub closed spec fn wf(self) -> bool {
        forall|i: int, j: int|
            0 <= i < j < self.entries@.len() ==> (#[trigger] self.entries@[i]).0@ != (
            #[trigger] self.entries@[j]).0@
    }

    /// How many entries there are.
    pub closed spec fn size(self) -> nat {
        self.entries@.len()
    }

    /// The key of the entry at `i`.
    pub closed spec fn key(self, i: int) -> K::V {
        self.entries@[i].0@
    }

    /// Every position holds an entry of the map.
    pub proof fn lemma_position(self, i: int)
        requires
            self.wf(),
            0 <= i < self.size(),
        ensures
            self@.contains_key(self.key(i)),
    {
        assert(self.holds_at(self.key(i), i));
    }

    /// Every key of the map has a position.
    pub proof fn lemma_key(self, key: K::V) -> (i: int)
        requires
            self.wf(),
            self@.contains_key(key),
        ensures
            0 <= i < self.size(),
            self.key(i) == key,
    {
        choose|i: int| self.holds_at(key, i)
    }

    /// Two positions hold different keys.
    pub proof fn lemma_distinct(self, i: int, j: int)
        requires
            self.wf(),
            0 <= i < self.size(),
            0 <= j < self.size(),
            i != j,
        ensures
            self.key(i) != self.key(j),
    {
        if i < j {
            assert(self.entries@[i].0@ != self.entries@[j].0@);
        } else {
            assert(self.entries@[j].0@ != self.entries@[i].0@);
        }
    }

    /// The empty map.
    pub fn new() -> (r: Self)
        ensures
            r.wf(),
            r@ == Map::<K::V, V>::empty(),
            r.size() == 0,
    {
        let r: Self = Dict { entries: Vec::new() };
        assert forall|k: K::V| !r@.contains_key(k) by {
            assert forall|i: int| !r.holds_at(k, i) by {}
        }
        assert(r@ =~= Map::<K::V, V>::empty());
        r
    }

    /// The number of entries.
    pub fn len(&self) -> (r: usize)
        ensures
            r == self.size(),
    {
        self.entries.len()
    }

    /// The key at a position.
    pub fn key_at(&self, i: usize) -> (r: &K)
        requires
            i < self.size(),
        ensures
            r@ == self.key(i as int),
    {
        &self.entries[i].0
    }

    /// The value at a position.
    pub fn value_at(&self, i: usize) -> (r: &V)
        requires
            self.wf(),
            i < self.size(),
        ensures
            self@.contains_key(self.key(i as int)),
            *r == self@[self.key(i as int)],
    {
        proof {
            let k = self.key(i as int);
            assert(self.holds_at(k, i as int));
            let c = choose|j: int| self.holds_at(k, j);
            if c != i {
                self.lemma_distinct(c, i as int);
            }
        }
        &self.entries[i].1
    }

    /// The position of a key.
    fn position(&self, key: &K) -> (r: Option<usize>)
        requires
            self.wf(),
        ensures
            r is Some <==> self@.contains_key(key@),
            r matches Some(i) ==> i < self.size() && self.key(i as int) == key@,
    {
        let n: usize = self.entries.len();
        let mut i: usize = 0;
        while i < n
            invariant
                n == self.entries.len(),
                i <= n,
                forall|j: int| 0 <= j < i ==> !self.holds_at(key@, j),
            decreases n - i,
        {
            if self.entries[i].0.same(key) {
                assert(self.holds_at(key@, i as int));
                return Some(i);
            }
            i = i + 1;
        }
        assert forall|j: int| !self.holds_at(key@, j) by {}
        None
    }

    /// The value of a key.
    pub fn get(&self, key: &K) -> (r: Option<&V>)
        requires
            self.wf(),
        ensures
            r is Some <==> self@.contains_key(key@),
            r matches Some(v) ==> *v == self@[key@],
    {
        match self.position(key) {
            Some(i) => Some(self.value_at(i)),
            None => None,
        }
    }

    /// Whether there is an entry for a key.
    pub fn contains_key(&self, key: &K) -> (r: bool)
        requires
            self.wf(),
        ensures
            r == self@.contains_key(key@),
    {
        self.position(key).is_some()
    }

    /// Removes the entry at a position and hands out its value.
    pub fn remove_at(&mut self, i: usize) -> (r: V)
        requires
            old(self).wf(),
            i < old(self).size(),
        ensures
            final(self).wf(),
            old(self)@.contains_key(old(self).key(i as int)),
            r == old(self)@[old(self).key(i as int)],
            final(self)@ == old(self)@.remove(old(self).key(i as int)),
            final(self).size() == old(self).size() - 1,
            forall|j: int|
                0 <= j < final(self).size() ==> #[trigger] final(self).key(j) == old(self).key(
                    if j < i {
                        j
                    } else {
                        j + 1
                    },
                ),
    {
        let ghost before = *self;
        let ghost key = before.key(i as int);
        let entry: (K, V) = self.entries.remove(i);
        proof {
            let after = *self;
            assert forall|a: int, b: int|
                0 <= a < b < after.entries@.len() implies (
            #[trigger] after.entries@[a]).0@ != (#[trigger] after.entries@[b]).0@ by {
                let a0 = if a < i { a } else { a + 1 };
                let b0 = if b < i { b } else { b + 1 };
                before.lemma_distinct(a0, b0);
            }
            assert(before.holds_at(key, i as int));
            let c = choose|j: int| before.holds_at(key, j);
            if c != i {
                before.lemma_distinct(c, i as int);
            }
            assert forall|k: K::V| after@.contains_key(k) <==> before@.remove(key).contains_key(
                k,
            ) by {
                if after@.contains_key(k) {
                    let j = choose|j: int| after.holds_at(k, j);
                    let j0 = if j < i { j } else { j + 1 };
                    assert(before.holds_at(k, j0));
                    before.lemma_distinct(j0, i as int);
                }
                if before@.remove(key).contains_key(k) {
                    let j = choose|j: int| before.holds_at(k, j);
                    let j1 = if j < i { j } else { j - 1 };
                    assert(after.holds_at(k, j1));
                }
            }
            assert forall|k: K::V| after@.contains_key(k) implies after@[k] == before@.remove(
                key,
            )[k] by {
                let j = choose|j: int| after.holds_at(k, j);
                let j0 = if j < i { j } else { j + 1 };
                assert(before.holds_at(k, j0));
                let d = choose|j: int| before.holds_at(k, j);
                if d != j0 {
                    before.lemma_distinct(d, j0);
                }
            }
            assert(after@ =~= before@.remove(key));
        }
        entry.1
    }

    /// Removes the entry of a key and hands out its value.
    pub fn remove(&mut self, key: &K) -> (r: Option<V>)
        requires
            old(self).wf(),
        ensures
            final(self).wf(),
            final(self)@ == old(self)@.remove(key@),
            r is Some <==> old(self)@.contains_key(key@),
            r matches Some(v) ==> v == old(self)@[key@],
    {
        match self.position(key) {
            Some(i) => Some(self.remove_at(i)),
            None => {
                assert(self@ =~= self@.remove(key@));
                None
            },
        }
    }

    /// Puts a value under a key, in place of one that is there.
    pub fn insert(&mut self, key: K, value: V)
        requires
            old(self).wf(),
        ensures
            final(self).wf(),
            final(self)@ == old(self)@.insert(key@, value),
    {
        let ghost whole = self@;
        let _: Option<V> = self.remove(&key);
        let ghost before = *self;
        self.entries.push((key, value));
        proof {
            let after = *self;
            let n = before.entries@.len() as int;
            assert forall|a: int, b: int| 0 <= a < b < after.entries@.len() implies (
            #[trigger] after.entries@[a]).0@ != (#[trigger] after.entries@[b]).0@ by {
                if b < n {
                    before.lemma_distinct(a, b);
                } else {
                    before.lemma_position(a);
                    assert(!before@.contains_key(key@));
                    assert(after.entries@[a] == before.entries@[a]);
                    assert(after.entries@[b].0@ == key@);
                }
            }
            assert(after.wf());
            assert(after.holds_at(key@, n));
            assert forall|k: K::V| after@.contains_key(k) <==> whole.insert(
                key@,
                value,
            ).contains_key(k) by {
                if after@.contains_key(k) && k != key@ {
                    let j = choose|j: int| after.holds_at(k, j);
                    assert(before.holds_at(k, j));
                }
                if before@.contains_key(k) {
                    let j = choose|j: int| before.holds_at(k, j);
                    assert(after.holds_at(k, j));
                }
            }
            assert forall|k: K::V| after@.contains_key(k) implies after@[k] == whole.insert(
                key@,
                value,
            )[k] by {
                let j = choose|j: int| after.holds_at(k, j);
                if k == key@ {
                    if j != n {
                        after.lemma_distinct(j, n);
                    }
                } else {
                    assert(before.holds_at(k, j));
                    let d = choose|d: int| before.holds_at(k, d);
                    if d != j {
                        before.lemma_distinct(d, j);
                    }
                    assert(before@.contains_key(k));
                    assert(before@[k] == whole[k]);
                    assert(after.entries@[j] == before.entries@[j]);
                }
            }
            assert(after@ =~= whole.insert(key@, value));
        }
    }
}

} // verus!
