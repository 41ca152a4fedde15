//! A map from byte strings to values.

use crate::bytes::same_bytes;
use vstd::prelude::*;

verus! {

/// A map from byte strings to values; each key stands in it once.
#[derive(Debug)]
pub struct ByteMap<V> {
    entries: Vec<(Vec<u8>, V)>,
}

impl<V> View for ByteMap<V> {
    type V = Map<Seq<u8>, V>;

    closed spec fn view(&self) -> Map<Seq<u8>, V> {
        Map::new(
            |k: Seq<u8>| exists|i: int| self.holds(i, k),
            |k: Seq<u8>| self.entries@[choose|i: int| self.holds(i, k)].1,
        )
    }
}

impl<V> ByteMap<V> {
    spec fn holds(self, i: int, k: Seq<u8>) -> bool {
        0 <= i < self.entries@.len() && self.entries@[i].0@ == k
    }

    #[verifier::type_invariant]
    spec fn distinct(self) -> bool {
        forall|i: int, j: int|
            0 <= i < j < self.entries@.len() ==> #[trigger] self.entries@[i].0@
                != #[trigger] self.entries@[j].0@
    }

    proof fn lemma_at(self, i: int)
        requires
            self.distinct(),
            0 <= i < self.entries@.len(),
        ensures
            self@.dom().contains(self.entries@[i].0@),
            self@[self.entries@[i].0@] == self.entries@[i].1,
    {
        let k = self.entries@[i].0@;
        assert(self.holds(i, k));
        let j = choose|j: int| self.holds(j, k);
        assert(self.entries@[j].0@ == self.entries@[i].0@);
        assert(i == j);
    }

    /// An empty map.
    pub fn new() -> (m: Self)
        ensures
            m@ == Map::<Seq<u8>, V>::empty(),
    {
        let m = ByteMap { entries: Vec::new() };
        assert(m@ =~= Map::<Seq<u8>, V>::empty());
        m
    }

    /// The position of a key, or the number of entries without it.
    fn position(&self, key: &[u8]) -> (p: usize)
        ensures
            p <= self.entries@.len(),
            p < self.entries@.len() ==> self.entries@[p as int].0@ == key@,
            p < self.entries@.len() <==> self@.dom().contains(key@),
    {
        let mut p: usize = 0;
        while p < self.entries.len() && !same_bytes(self.entries[p].0.as_slice(), key)
            invariant
                p <= self.entries@.len(),
                forall|j: int| 0 <= j < p ==> #[trigger] self.entries@[j].0@ != key@,
            decreases self.entries@.len() - p,
        {
            p = p + 1;
        }
        proof {
            use_type_invariant(self);
            if p < self.entries@.len() {
                self.lemma_at(p as int);
            } else if self@.dom().contains(key@) {
                let i = choose|i: int| self.holds(i, key@);
                assert(self.entries@[i].0@ == key@);
            }
        }
        p
    }

    /// The value of a key.
    pub fn get(&self, key: &[u8]) -> (out: Option<&V>)
        ensures
            out is Some <==> self@.dom().contains(key@),
            out matches Some(v) ==> *v == self@[key@],
    {
        let p = self.position(key);
        if p < self.entries.len() {
            proof {
                use_type_invariant(self);
                self.lemma_at(p as int);
            }
            Some(&self.entries[p].1)
        } else {
            None
        }
    }

    proof fn lemma_removed(before: Self, p: int, after: Self)
        requires
            before.distinct(),
            0 <= p < before.entries@.len(),
            after.entries@ == before.entries@.remove(p),
        ensures
            after.distinct(),
            after@ == before@.remove(before.entries@[p].0@),
    {
        let key = before.entries@[p].0@;
        assert forall|i: int, j: int| 0 <= i < j < after.entries@.len() implies #[trigger] after.entries@[i].0@
            != #[trigger] after.entries@[j].0@ by {
            let i0 = if i < p { i } else { i + 1 };
            let j0 = if j < p { j } else { j + 1 };
            assert(after.entries@[i] == before.entries@[i0]);
            assert(after.entries@[j] == before.entries@[j0]);
        }
        assert forall|k: Seq<u8>| #[trigger] after@.dom().contains(k) <==> before@.remove(
            key,
        ).dom().contains(k) by {
            if after@.dom().contains(k) {
                let i = choose|i: int| after.holds(i, k);
                let i0 = if i < p { i } else { i + 1 };
                assert(after.entries@[i] == before.entries@[i0]);
                before.lemma_at(i0);
                assert(before.entries@[i0].0@ == k);
                assert(before.entries@[p].0@ == key);
            }
            if before@.remove(key).dom().contains(k) {
                let j = choose|j: int| before.holds(j, k);
                let i = if j < p { j } else { j - 1 };
                assert(after.entries@[i] == before.entries@[j]);
                assert(after.holds(i, k));
            }
        }
        assert forall|k: Seq<u8>| after@.dom().contains(k) implies #[trigger] after@[k]
            == before@.remove(key)[k] by {
            let i = choose|i: int| after.holds(i, k);
            let i0 = if i < p { i } else { i + 1 };
            assert(after.entries@[i] == before.entries@[i0]);
            after.lemma_at(i);
            before.lemma_at(i0);
            assert(before.entries@[i0].0@ == k);
        }
        assert(after@ =~= before@.remove(key));
    }

    proof fn lemma_pushed(before: Self, entry: (Vec<u8>, V), after: Self)
        requires
            before.distinct(),
            !before@.dom().contains(entry.0@),
            after.entries@ == before.entries@.push(entry),
        ensures
            after.distinct(),
            after@ == before@.insert(entry.0@, entry.1),
    {
        let key = entry.0@;
        let n = before.entries@.len() as int;
        assert forall|i: int, j: int| 0 <= i < j < after.entries@.len() implies #[trigger] after.entries@[i].0@
            != #[trigger] after.entries@[j].0@ by {
            assert(after.entries@[i] == before.entries@[i]);
            if j == n {
                before.lemma_at(i);
            } else {
                assert(after.entries@[j] == before.entries@[j]);
            }
        }
        assert forall|k: Seq<u8>| #[trigger] after@.dom().contains(k) <==> before@.insert(
            key,
            entry.1,
        ).dom().contains(k) by {
            if after@.dom().contains(k) {
                let i = choose|i: int| after.holds(i, k);
                if i < n {
                    assert(after.entries@[i] == before.entries@[i]);
                    before.lemma_at(i);
                }
            }
            if k == key {
                assert(after.holds(n, k));
            } else if before@.dom().contains(k) {
                let j = choose|j: int| before.holds(j, k);
                assert(after.entries@[j] == before.entries@[j]);
                assert(after.holds(j, k));
            }
        }
        assert forall|k: Seq<u8>| after@.dom().contains(k) implies #[trigger] after@[k]
            == before@.insert(key, entry.1)[k] by {
            let i = choose|i: int| after.holds(i, k);
            after.lemma_at(i);
            if i < n {
                assert(after.entries@[i] == before.entries@[i]);
                before.lemma_at(i);
                assert(before.entries@[i].0@ == k);
            }
        }
        assert(after@ =~= before@.insert(key, entry.1));
    }

    /// Removes a key; returns the value it had.
    pub fn remove(&mut self, key: &[u8]) -> (out: Option<V>)
        ensures
            final(self)@ == old(self)@.remove(key@),
            out is Some <==> old(self)@.dom().contains(key@),
            out matches Some(v) ==> v == old(self)@[key@],
    {
        let p = self.position(key);
        proof {
            use_type_invariant(&*self);
        }
        let ghost before = *self;
        if p < self.entries.len() {
            proof {
                before.lemma_at(p as int);
            }
            let mut entries: Vec<(Vec<u8>, V)> = Vec::new();
            std::mem::swap(&mut self.entries, &mut entries);
            let gone = entries.remove(p);
            proof {
                Self::lemma_removed(before, p as int, ByteMap { entries });
            }
            self.entries = entries;
            return Some(gone.1);
        }
        assert(self@.remove(key@) =~= self@);
        None
    }

    /// Sets the value of a key; returns the value it had.
    pub fn insert(&mut self, key: Vec<u8>, value: V) -> (out: Option<V>)
        ensures
            final(self)@ == old(self)@.insert(key@, value),
            out is Some <==> old(self)@.dom().contains(key@),
            out matches Some(v) ==> v == old(self)@[key@],
    {
        let out = self.remove(key.as_slice());
        assert(self@.insert(key@, value) =~= old(self)@.insert(key@, value));
        proof {
            use_type_invariant(&*self);
        }
        let ghost before = *self;
        let ghost entry = (key, value);
        let mut entries: Vec<(Vec<u8>, V)> = Vec::new();
        std::mem::swap(&mut self.entries, &mut entries);
        entries.push((key, value));
        proof {
            Self::lemma_pushed(before, entry, ByteMap { entries });
        }
        self.entries = entries;
        out
    }

    /// Number of keys.
    pub fn len(&self) -> (n: usize)
        ensures
            n == self.entry_count(),
    {
        self.entries.len()
    }

    /// Number of keys.
    pub closed spec fn entry_count(self) -> nat {
        self.entries@.len()
    }

    /// The key at a position.
    pub closed spec fn key_at(self, i: int) -> Seq<u8> {
        self.entries@[i].0@
    }

    /// Every key stands at one position.
    pub(crate) fn key_facts(&self)
        ensures
            forall|i: int|
                0 <= i < self.entry_count() ==> self@.dom().contains(#[trigger] self.key_at(i)),
            forall|k: Seq<u8>| #[trigger]
                self@.dom().contains(k) ==> exists|i: int|
                    0 <= i < self.entry_count() && #[trigger] self.key_at(i) == k,
            forall|i: int, j: int|
                0 <= i < j < self.entry_count() ==> #[trigger] self.key_at(i)
                    != #[trigger] self.key_at(j),
            self@.dom().finite(),
            self@.dom().len() == self.entry_count(),
    {
        proof {
            use_type_invariant(self);
            assert forall|i: int| 0 <= i < self.entry_count() implies self@.dom().contains(
                #[trigger] self.key_at(i),
            ) by {
                self.lemma_at(i);
            }
            assert forall|k: Seq<u8>| #[trigger] self@.dom().contains(k) implies exists|i: int|
                0 <= i < self.entry_count() && #[trigger] self.key_at(i) == k by {
                let i = choose|i: int| self.holds(i, k);
                assert(self.key_at(i) == k);
            }
            let keys = Seq::new(self.entry_count(), |i: int| self.key_at(i));
            assert(keys.no_duplicates());
            keys.unique_seq_to_set();
            assert forall|k: Seq<u8>| #[trigger] self@.dom().contains(k) implies keys.contains(
                k,
            ) by {
                let i = choose|i: int|
                    0 <= i < self.entry_count() && #[trigger] self.key_at(i) == k;
                assert(keys[i] == k);
            }
            assert(self@.dom() =~= keys.to_set());
        }
    }

    /// The value at a position.
    pub fn value_at(&self, i: usize) -> (out: &V)
        requires
            i < self.entry_count(),
        ensures
            self@.dom().contains(self.key_at(i as int)),
            *out == self@[self.key_at(i as int)],
    {
        proof {
            use_type_invariant(self);
            self.lemma_at(i as int);
        }
        &self.entries[i].1
    }
}

} // verus!
