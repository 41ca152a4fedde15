//! A map from texts to values, kept in the order of its keys.

use crate::text::chars_of;
use vstd::prelude::*;
use vstd::string::*;

verus! {

/// Lexicographic order of texts, by code point.
pub open spec fn text_lt(a: Seq<char>, b: Seq<char>) -> bool
    decreases a.len(),
{
    if b.len() == 0 {
        false
    } else if a.len() == 0 {
        true
    } else if a[0] != b[0] {
        a[0] < b[0]
    } else {
        text_lt(a.skip(1), b.skip(1))
    }
}

/// No text stands before itself.
pub proof fn lemma_text_lt_irreflexive(a: Seq<char>)
    ensures
        !text_lt(a, a),
    decreases a.len(),
{
    if a.len() > 0 {
        lemma_text_lt_irreflexive(a.skip(1));
    }
}

pub proof fn lemma_text_lt_transitive(a: Seq<char>, b: Seq<char>, c: Seq<char>)
    requires
        text_lt(a, b),
        text_lt(b, c),
    ensures
        text_lt(a, c),
    decreases a.len(),
{
    if a.len() > 0 && a[0] == b[0] && b[0] == c[0] {
        lemma_text_lt_transitive(a.skip(1), b.skip(1), c.skip(1));
    }
}

/// Of two different texts one stands before the other.
pub proof fn lemma_text_lt_total(a: Seq<char>, b: Seq<char>)
    ensures
        text_lt(a, b) || text_lt(b, a) || a == b,
    decreases a.len(),
{
    if a.len() > 0 && b.len() > 0 && a[0] == b[0] {
        lemma_text_lt_total(a.skip(1), b.skip(1));
        if a.skip(1) == b.skip(1) {
            assert(a =~= seq![a[0]] + a.skip(1));
            assert(b =~= seq![b[0]] + b.skip(1));
        }
    } else if a.len() == 0 && b.len() == 0 {
        assert(a =~= b);
    }
}

/// Each text stands before those that follow it.
pub open spec fn strictly_sorted(s: Seq<Seq<char>>) -> bool {
    forall|i: int, j: int| 0 <= i < j < s.len() ==> text_lt(#[trigger] s[i], #[trigger] s[j])
}

/// Whether `a` stands before `b`.
pub fn text_before(a: &str, b: &str) -> (before: bool)
    ensures
        before == text_lt(a@, b@),
{
    let x = chars_of(a);
    let y = chars_of(b);
    let mut i: usize = 0;
    assert(x@.skip(0) =~= x@);
    assert(y@.skip(0) =~= y@);
    while i < x.len() && i < y.len()
        invariant
            i <= x.len(),
            i <= y.len(),
            x@ == a@,
            y@ == b@,
            text_lt(a@, b@) == text_lt(x@.skip(i as int), y@.skip(i as int)),
        decreases x.len() - i,
    {
        if x[i] != y[i] {
            return x[i] < y[i];
        }
        assert(x@.skip(i as int).skip(1) =~= x@.skip(i + 1));
        assert(y@.skip(i as int).skip(1) =~= y@.skip(i + 1));
        i = i + 1;
    }
    i < y.len()
}

/// A map from texts to values, kept in the order of its keys.
#[derive(Debug, PartialEq, Eq)]
pub struct TextMap<V> {
    entries: Vec<(String, V)>,
}

impl<V> View for TextMap<V> {
    type V = Map<Seq<char>, V>;

    closed spec fn view(&self) -> Map<Seq<char>, V> {
        Map::new(|k: Seq<char>| self.key_order().contains(k), |k: Seq<char>| self.at(k))
    }
}

impl<V> TextMap<V> {
    /// The keys in their order.
    pub closed spec fn key_order(self) -> Seq<Seq<char>> {
        Seq::new(self.entries@.len(), |i: int| self.entries@[i].0@)
    }

    spec fn at(self, k: Seq<char>) -> V {
        self.entries@[self.key_order().index_of(k)].1
    }

    #[verifier::type_invariant]
    spec fn sorted(self) -> bool {
        strictly_sorted(self.key_order())
    }

    proof fn lemma_distinct(self)
        requires
            self.sorted(),
        ensures
            forall|i: int, j: int|
                0 <= i < self.entries@.len() && 0 <= j < self.entries@.len()
                    && #[trigger] self.entries@[i].0@ == #[trigger] self.entries@[j].0@ ==> i == j,
    {
        assert forall|i: int, j: int|
            0 <= i < self.entries@.len() && 0 <= j < self.entries@.len()
                && #[trigger] self.entries@[i].0@ == #[trigger] self.entries@[j].0@ implies i
            == j by {
            lemma_text_lt_irreflexive(self.entries@[i].0@);
            assert(self.key_order()[i] == self.entries@[i].0@);
            assert(self.key_order()[j] == self.entries@[j].0@);
        }
    }

    proof fn lemma_at(self, i: int)
        requires
            self.sorted(),
            0 <= i < self.entries@.len(),
        ensures
            self@.dom().contains(self.entries@[i].0@),
            self@[self.entries@[i].0@] == self.entries@[i].1,
    {
        self.lemma_distinct();
        let k = self.entries@[i].0@;
        assert(self.key_order()[i] == k);
        let j = self.key_order().index_of(k);
        assert(self.key_order()[j] == k);
        assert(self.entries@[j].0@ == self.entries@[i].0@);
    }

    /// The keys in order are those of the map, each once.
    pub(crate) fn order_facts(&self)
        ensures
            strictly_sorted(self.key_order()),
            forall|k: Seq<char>| #[trigger]
                self@.dom().contains(k) <==> self.key_order().contains(k),
            self@.dom().finite(),
            self@.dom().len() == self.key_order().len(),
    {
        proof {
            use_type_invariant(&*self);
            self.lemma_distinct();
            let keys = self.key_order();
            assert(keys.no_duplicates()) by {
                assert forall|i: int, j: int|
                    0 <= i < keys.len() && 0 <= j < keys.len() && i != j implies keys[i]
                    != keys[j] by {
                    assert(keys[i] == self.entries@[i].0@);
                    assert(keys[j] == self.entries@[j].0@);
                }
            }
            keys.unique_seq_to_set();
            assert(self@.dom() =~= keys.to_set());
        }
    }

    /// An empty map.
    pub fn new() -> (m: Self)
        ensures
            m@ == Map::<Seq<char>, V>::empty(),
            m.key_order() == Seq::<Seq<char>>::empty(),
    {
        let m = TextMap { entries: Vec::new() };
        assert(m@ =~= Map::<Seq<char>, V>::empty());
        m
    }

    /// Number of keys.
    pub fn len(&self) -> (n: usize)
        ensures
            n == self.key_order().len(),
            n == self@.dom().len(),
    {
        self.order_facts();
        self.entries.len()
    }

    /// Whether there is no key.
    pub fn is_empty(&self) -> (empty: bool)
        ensures
            empty == (self.key_order().len() == 0),
            empty == (self@.dom().len() == 0),
    {
        self.len() == 0
    }

    /// The first position whose key does not stand before `key`.
    fn position(&self, key: &str) -> (p: usize)
        ensures
            p <= self.entries@.len(),
            forall|j: int| 0 <= j < p ==> text_lt(#[trigger] self.entries@[j].0@, key@),
            forall|j: int| p <= j < self.entries@.len() ==> !text_lt(#[trigger] self.entries@[j].0@, key@),
            (p < self.entries@.len() && self.entries@[p as int].0@ == key@) <==> self@.dom().contains(key@),
    {
        proof {
            use_type_invariant(&*self);
        }
        let mut p: usize = 0;
        while p < self.entries.len() && text_before(self.entries[p].0.as_str(), key)
            invariant
                p <= self.entries@.len(),
                forall|j: int| 0 <= j < p ==> text_lt(#[trigger] self.entries@[j].0@, key@),
            decreases self.entries@.len() - p,
        {
            p = p + 1;
        }
        proof {
            let keys = self.key_order();
            assert forall|j: int| p <= j < self.entries@.len() implies !text_lt(
                #[trigger] self.entries@[j].0@,
                key@,
            ) by {
                if text_lt(self.entries@[j].0@, key@) && j > p {
                    assert(keys[p as int] == self.entries@[p as int].0@);
                    assert(keys[j] == self.entries@[j].0@);
                    lemma_text_lt_transitive(keys[p as int], keys[j], key@);
                }
            }
            if self@.dom().contains(key@) {
                let j = keys.index_of(key@);
                assert(keys[j] == key@);
                assert(keys[j] == self.entries@[j].0@);
                lemma_text_lt_irreflexive(key@);
                if p < j {
                    assert(keys[p as int] == self.entries@[p as int].0@);
                    assert(text_lt(keys[p as int], keys[j]));
                }
                assert(p == j);
            }
            if p < self.entries@.len() && self.entries@[p as int].0@ == key@ {
                self.lemma_at(p as int);
            }
        }
        p
    }

    /// The value of a key.
    pub fn get(&self, key: &str) -> (out: Option<&V>)
        ensures
            out is Some <==> self@.dom().contains(key@),
            out matches Some(v) ==> *v == self@[key@],
    {
        let p = self.position(key);
        if p < self.entries.len() && crate::text::same_text(self.entries[p].0.as_str(), key) {
            proof {
                use_type_invariant(&*self);
                self.lemma_at(p as int);
            }
            Some(&self.entries[p].1)
        } else {
            None
        }
    }

    /// Whether the key is there.
    pub fn contains_key(&self, key: &str) -> (found: bool)
        ensures
            found == self@.dom().contains(key@),
    {
        self.get(key).is_some()
    }

    /// Key and value at a position of the order.
    pub fn entry(&self, i: usize) -> (out: (&String, &V))
        requires
            i < self.key_order().len(),
        ensures
            out.0@ == self.key_order()[i as int],
            self@.dom().contains(out.0@),
            *out.1 == self@[out.0@],
    {
        proof {
            use_type_invariant(&*self);
            self.lemma_at(i as int);
        }
        (&self.entries[i].0, &self.entries[i].1)
    }

    /// A map is known by its entries.
    proof fn lemma_is(self, m: Map<Seq<char>, V>)
        requires
            self.sorted(),
            forall|i: int|
                0 <= i < self.entries@.len() ==> m.dom().contains(#[trigger] self.entries@[i].0@)
                    && m[self.entries@[i].0@] == self.entries@[i].1,
            forall|k: Seq<char>| #[trigger]
                m.dom().contains(k) ==> exists|i: int|
                    0 <= i < self.entries@.len() && #[trigger] self.entries@[i].0@ == k,
        ensures
            self@ == m,
    {
        assert forall|k: Seq<char>| #[trigger] self@.dom().contains(k) <==> m.dom().contains(k) by {
            if self@.dom().contains(k) {
                let i = self.key_order().index_of(k);
                assert(self.key_order()[i] == k);
                assert(self.entries@[i].0@ == k);
            }
            if m.dom().contains(k) {
                let i = choose|i: int|
                    0 <= i < self.entries@.len() && #[trigger] self.entries@[i].0@ == k;
                self.lemma_at(i);
            }
        }
        assert forall|k: Seq<char>| self@.dom().contains(k) implies #[trigger] self@[k] == m[k] by {
            let i = self.key_order().index_of(k);
            assert(self.key_order()[i] == k);
            assert(self.entries@[i].0@ == k);
            self.lemma_at(i);
        }
        assert(self@ =~= m);
    }

    proof fn lemma_removed(before: Self, p: int, after: Self)
        requires
            before.sorted(),
            0 <= p < before.entries@.len(),
            after.entries@ == before.entries@.remove(p),
        ensures
            after.sorted(),
            after@ == before@.remove(before.entries@[p].0@),
    {
        let key = before.entries@[p].0@;
        let m = before@.remove(key);
        before.lemma_distinct();
        assert forall|i: int, j: int| 0 <= i < j < after.key_order().len() implies text_lt(
            #[trigger] after.key_order()[i],
            #[trigger] after.key_order()[j],
        ) by {
            let i0 = if i < p { i } else { i + 1 };
            let j0 = if j < p { j } else { j + 1 };
            assert(after.key_order()[i] == before.key_order()[i0]);
            assert(after.key_order()[j] == before.key_order()[j0]);
        }
        assert forall|i: int| 0 <= i < after.entries@.len() implies m.dom().contains(
            #[trigger] after.entries@[i].0@,
        ) && m[after.entries@[i].0@] == after.entries@[i].1 by {
            let i0 = if i < p { i } else { i + 1 };
            assert(after.entries@[i] == before.entries@[i0]);
            before.lemma_at(i0);
            if before.entries@[i0].0@ == key {
                assert(before.entries@[i0].0@ == before.entries@[p].0@);
            }
        }
        assert forall|k: Seq<char>| #[trigger] m.dom().contains(k) implies exists|i: int|
            0 <= i < after.entries@.len() && #[trigger] after.entries@[i].0@ == k by {
            let j = before.key_order().index_of(k);
            assert(before.key_order()[j] == k);
            assert(before.entries@[j].0@ == k);
            let i = if j < p { j } else { j - 1 };
            assert(after.entries@[i] == before.entries@[j]);
        }
        after.lemma_is(m);
    }

    proof fn lemma_inserted(before: Self, p: int, entry: (String, V), after: Self)
        requires
            before.sorted(),
            0 <= p <= before.entries@.len(),
            forall|j: int| 0 <= j < p ==> text_lt(#[trigger] before.entries@[j].0@, entry.0@),
            forall|j: int|
                p <= j < before.entries@.len() ==> text_lt(entry.0@, #[trigger] before.entries@[j].0@),
            after.entries@ == before.entries@.insert(p, entry),
        ensures
            after.sorted(),
            after@ == before@.insert(entry.0@, entry.1),
    {
        let key = entry.0@;
        let m = before@.insert(key, entry.1);
        assert forall|i: int, j: int| 0 <= i < j < after.key_order().len() implies text_lt(
            #[trigger] after.key_order()[i],
            #[trigger] after.key_order()[j],
        ) by {
            let i0 = if i < p { i } else { i - 1 };
            let j0 = if j < p { j } else { j - 1 };
            if i != p {
                assert(after.entries@[i] == before.entries@[i0]);
                assert(before.key_order()[i0] == before.entries@[i0].0@);
            }
            if j != p {
                assert(after.entries@[j] == before.entries@[j0]);
                assert(before.key_order()[j0] == before.entries@[j0].0@);
            }
        }
        lemma_text_lt_irreflexive(key);
        assert forall|i: int| 0 <= i < after.entries@.len() implies m.dom().contains(
            #[trigger] after.entries@[i].0@,
        ) && m[after.entries@[i].0@] == after.entries@[i].1 by {
            if i != p {
                let i0 = if i < p { i } else { i - 1 };
                assert(after.entries@[i] == before.entries@[i0]);
                before.lemma_at(i0);
            }
        }
        assert forall|k: Seq<char>| #[trigger] m.dom().contains(k) implies exists|i: int|
            0 <= i < after.entries@.len() && #[trigger] after.entries@[i].0@ == k by {
            if k == key {
                assert(after.entries@[p].0@ == k);
            } else {
                let j = before.key_order().index_of(k);
                assert(before.key_order()[j] == k);
                assert(before.entries@[j].0@ == k);
                let i = if j < p { j } else { j + 1 };
                assert(after.entries@[i] == before.entries@[j]);
            }
        }
        after.lemma_is(m);
    }

    /// Removes a key; returns the value it had.
    pub fn remove(&mut self, key: &str) -> (out: Option<V>)
        ensures
            final(self)@ == old(self)@.remove(key@),
            out is Some <==> old(self)@.dom().contains(key@),
            out matches Some(v) ==> v == old(self)@[key@],
    {
        let p = self.position(key);
        proof {
            use_type_invariant(&*self);
        }
        if p < self.entries.len() && crate::text::same_text(self.entries[p].0.as_str(), key) {
            let ghost before = *self;
            proof {
                before.lemma_at(p as int);
            }
            let mut entries: Vec<(String, V)> = Vec::new();
            std::mem::swap(&mut self.entries, &mut entries);
            let gone = entries.remove(p);
            proof {
                Self::lemma_removed(before, p as int, TextMap { entries });
            }
            self.entries = entries;
            return Some(gone.1);
        }
        assert(self@.remove(key@) =~= self@);
        None
    }

    /// Sets the value of a key; returns the value it had.
    pub fn insert(&mut self, key: String, value: V) -> (out: Option<V>)
        ensures
            final(self)@ == old(self)@.insert(key@, value),
            out is Some <==> old(self)@.dom().contains(key@),
            out matches Some(v) ==> v == old(self)@[key@],
    {
        let out = self.remove(key.as_str());
        assert(self@.insert(key@, value) =~= old(self)@.insert(key@, value));
        let p = self.position(key.as_str());
        proof {
            use_type_invariant(&*self);
        }
        let ghost before = *self;
        let ghost entry = (key, value);
        proof {
            assert forall|j: int| p <= j < before.entries@.len() implies text_lt(
                key@,
                #[trigger] before.entries@[j].0@,
            ) by {
                lemma_text_lt_total(key@, before.entries@[j].0@);
                before.lemma_at(j);
            }
        }
        let mut entries: Vec<(String, V)> = Vec::new();
        std::mem::swap(&mut self.entries, &mut entries);
        entries.insert(p, (key, value));
        proof {
            Self::lemma_inserted(before, p as int, entry, TextMap { entries });
        }
        self.entries = entries;
        out
    }

    /// The keys in their order.
    pub fn keys(&self) -> (out: Vec<String>)
        ensures
            out@.len() == self.key_order().len(),
            forall|i: int| 0 <= i < out@.len() ==> #[trigger] out@[i]@ == self.key_order()[i],
            strictly_sorted(self.key_order()),
            forall|k: Seq<char>| #[trigger]
                self@.dom().contains(k) <==> self.key_order().contains(k),
    {
        self.order_facts();
        let mut out: Vec<String> = Vec::new();
        let mut i: usize = 0;
        while i < self.entries.len()
            invariant
                i <= self.entries@.len(),
                out@.len() == i,
                forall|j: int| 0 <= j < i ==> #[trigger] out@[j]@ == self.key_order()[j],
            decreases self.entries@.len() - i,
        {
            out.push(self.entries[i].0.clone());
            i = i + 1;
        }
        out
    }
}

impl<V: Clone> Clone for TextMap<V> {
    fn clone(&self) -> (out: Self)
        ensures
            out.key_order() == self.key_order(),
            forall|k: Seq<char>| #[trigger] self@.dom().contains(k) <==> out@.dom().contains(k),
            forall|k: Seq<char>|
                self@.dom().contains(k) ==> cloned(#[trigger] self@[k], #[trigger] out@[k]),
    {
        proof {
            use_type_invariant(self);
        }
        let mut entries: Vec<(String, V)> = Vec::new();
        let mut i: usize = 0;
        while i < self.entries.len()
            invariant
                i <= self.entries@.len(),
                entries@.len() == i,
                forall|j: int|
                    0 <= j < i ==> (#[trigger] entries@[j]).0@ == self.entries@[j].0@ && cloned(
                        self.entries@[j].1,
                        entries@[j].1,
                    ),
            decreases self.entries@.len() - i,
        {
            entries.push((self.entries[i].0.clone(), self.entries[i].1.clone()));
            i = i + 1;
        }
        proof {
            let out = TextMap { entries };
            assert(out.key_order() =~= self.key_order());
            assert forall|k: Seq<char>| self@.dom().contains(k) implies cloned(
                #[trigger] self@[k],
                #[trigger] out@[k],
            ) by {
                let i = self.key_order().index_of(k);
                assert(self.key_order()[i] == k);
                self.lemma_at(i);
                assert(out.entries@[i].0@ == self.entries@[i].0@);
                out.lemma_at(i);
            }
        }
        TextMap { entries }
    }
}

/// A strictly sorted list is settled by what it holds.
pub proof fn lemma_sorted_is_unique(a: Seq<Seq<char>>, b: Seq<Seq<char>>)
    requires
        strictly_sorted(a),
        strictly_sorted(b),
        forall|k: Seq<char>| #[trigger] a.contains(k) <==> b.contains(k),
    ensures
        a == b,
    decreases a.len(),
{
    if a.len() == 0 {
        if b.len() > 0 {
            assert(b.contains(b[0]));
            assert(a.contains(b[0]));
        }
        assert(a =~= b);
    } else {
        assert(a.contains(a.last()));
        assert(b.contains(a.last()));
        let i = b.index_of(a.last());
        assert(b.contains(b.last()));
        assert(a.contains(b.last()));
        let j = a.index_of(b.last());
        if i < b.len() - 1 {
            assert(text_lt(b[i], b[b.len() - 1]));
            if j < a.len() - 1 {
                assert(text_lt(a[j], a[a.len() - 1]));
                lemma_text_lt_total(a.last(), b.last());
                lemma_text_lt_transitive(a.last(), b.last(), a.last());
                lemma_text_lt_irreflexive(a.last());
            } else {
                lemma_text_lt_irreflexive(a.last());
            }
        }
        assert(a.last() == b.last());
        let (fa, fb) = (a.drop_last(), b.drop_last());
        assert forall|k: Seq<char>| #[trigger] fa.contains(k) <==> fb.contains(k) by {
            if fa.contains(k) {
                let n = fa.index_of(k);
                assert(a[n] == k);
                assert(a.contains(k));
                let m = b.index_of(k);
                assert(b[m] == k);
                if m == b.len() - 1 {
                    assert(text_lt(a[n], a[a.len() - 1]));
                    lemma_text_lt_irreflexive(k);
                }
                assert(fb[m] == k);
            }
            if fb.contains(k) {
                let n = fb.index_of(k);
                assert(b[n] == k);
                assert(b.contains(k));
                assert(a.contains(k));
                let m = a.index_of(k);
                assert(a[m] == k);
                if m == a.len() - 1 {
                    assert(text_lt(b[n], b[b.len() - 1]));
                    lemma_text_lt_irreflexive(k);
                }
                assert(fa[m] == k);
            }
        }
        assert(strictly_sorted(fa)) by {
            assert forall|x: int, y: int| 0 <= x < y < fa.len() implies text_lt(
                #[trigger] fa[x],
                #[trigger] fa[y],
            ) by {
                assert(text_lt(a[x], a[y]));
            }
        }
        assert(strictly_sorted(fb)) by {
            assert forall|x: int, y: int| 0 <= x < y < fb.len() implies text_lt(
                #[trigger] fb[x],
                #[trigger] fb[y],
            ) by {
                assert(text_lt(b[x], b[y]));
            }
        }
        lemma_sorted_is_unique(fa, fb);
        assert(a =~= fa.push(a.last()));
        assert(b =~= fb.push(b.last()));
    }
}

/// A map from pairs of texts to values, kept in the order of its keys.
#[derive(Debug, PartialEq, Eq)]
pub struct PairMap<V> {
    rows: TextMap<TextMap<V>>,
}

impl<V> View for PairMap<V> {
    type V = Map<(Seq<char>, Seq<char>), V>;

    closed spec fn view(&self) -> Map<(Seq<char>, Seq<char>), V> {
        Map::new(
            |k: (Seq<char>, Seq<char>)|
                self.rows@.dom().contains(k.0) && self.rows@[k.0]@.dom().contains(k.1),
            |k: (Seq<char>, Seq<char>)| self.rows@[k.0]@[k.1],
        )
    }
}

impl<V> PairMap<V> {
    /// The first keys in their order; a first key may have no second one.
    pub closed spec fn row_order(self) -> Seq<Seq<char>> {
        self.rows.key_order()
    }

    /// The second keys of a first key, in their order.
    pub closed spec fn row_keys(self, first: Seq<char>) -> Seq<Seq<char>> {
        if self.rows@.dom().contains(first) {
            self.rows@[first].key_order()
        } else {
            Seq::empty()
        }
    }

    /// An empty map.
    pub fn new() -> (m: Self)
        ensures
            m@ == Map::<(Seq<char>, Seq<char>), V>::empty(),
    {
        let m = PairMap { rows: TextMap::new() };
        assert(m@ =~= Map::<(Seq<char>, Seq<char>), V>::empty());
        m
    }

    /// The value of a key.
    pub fn get(&self, first: &str, second: &str) -> (out: Option<&V>)
        ensures
            out is Some <==> self@.dom().contains((first@, second@)),
            out matches Some(v) ==> *v == self@[(first@, second@)],
    {
        match self.rows.get(first) {
            Some(row) => row.get(second),
            None => None,
        }
    }

    /// Sets the value of a key; returns the value it had.
    pub fn insert(&mut self, first: String, second: String, value: V) -> (out: Option<V>)
        ensures
            final(self)@ == old(self)@.insert((first@, second@), value),
            out is Some <==> old(self)@.dom().contains((first@, second@)),
            out matches Some(v) ==> v == old(self)@[(first@, second@)],
    {
        let ghost key = (first@, second@);
        let mut row = match self.rows.remove(first.as_str()) {
            Some(row) => row,
            None => TextMap::new(),
        };
        let out = row.insert(second, value);
        self.rows.insert(first, row);
        assert(self@ =~= old(self)@.insert(key, value));
        out
    }

    /// The second keys of a first key, in their order.
    pub fn second_keys(&self, first: &str) -> (out: Vec<String>)
        ensures
            out@.len() == self.row_keys(first@).len(),
            forall|i: int| 0 <= i < out@.len() ==> #[trigger] out@[i]@ == self.row_keys(first@)[i],
            strictly_sorted(self.row_keys(first@)),
            forall|k: Seq<char>| #[trigger]
                self.row_keys(first@).contains(k) <==> self@.dom().contains((first@, k)),
    {
        match self.rows.get(first) {
            Some(row) => row.keys(),
            None => Vec::new(),
        }
    }

    /// Number of first keys.
    pub fn row_count(&self) -> (n: usize)
        ensures
            n == self.row_order().len(),
            strictly_sorted(self.row_order()),
            forall|a: Seq<char>, b: Seq<char>| #[trigger]
                self@.dom().contains((a, b)) ==> self.row_order().contains(a),
    {
        self.rows.order_facts();
        self.rows.len()
    }

    /// The first key at a position of the order.
    pub fn first_key(&self, i: usize) -> (key: &String)
        requires
            i < self.row_order().len(),
        ensures
            key@ == self.row_order()[i as int],
    {
        self.rows.entry(i).0
    }
}

impl<V: Clone> Clone for PairMap<V> {
    fn clone(&self) -> (out: Self)
        ensures
            out.row_order() == self.row_order(),
            forall|k: (Seq<char>, Seq<char>)| #[trigger]
                self@.dom().contains(k) <==> out@.dom().contains(k),
            forall|k: (Seq<char>, Seq<char>)|
                self@.dom().contains(k) ==> cloned(#[trigger] self@[k], #[trigger] out@[k]),
    {
        let out = PairMap { rows: self.rows.clone() };
        proof {
            assert forall|k: (Seq<char>, Seq<char>)| #[trigger]
                self@.dom().contains(k) <==> out@.dom().contains(k) by {
                if self.rows@.dom().contains(k.0) {
                    assert(cloned(self.rows@[k.0], out.rows@[k.0]));
                    assert(self.rows@[k.0]@.dom().contains(k.1) <==> out.rows@[k.0]@.dom().contains(
                        k.1,
                    ));
                }
            }
            assert forall|k: (Seq<char>, Seq<char>)| self@.dom().contains(k) implies cloned(
                #[trigger] self@[k],
                #[trigger] out@[k],
            ) by {
                assert(cloned(self.rows@[k.0], out.rows@[k.0]));
                assert(cloned(self.rows@[k.0]@[k.1], out.rows@[k.0]@[k.1]));
            }
        }
        out
    }
}

/// Texts are ordered by their first difference, and a text stands before every
/// longer one that starts with it.
pub proof fn law_text_order(same: Seq<char>, a: char, x: Seq<char>, b: char, y: Seq<char>)
    ensures
        a != b ==> (text_lt(same.push(a) + x, same.push(b) + y) <==> a < b),
        text_lt(same, same.push(a) + x),
        !text_lt(same.push(a) + x, same),
    decreases same.len(),
{
    let s = same.push(a) + x;
    let t = same.push(b) + y;
    if same.len() == 0 {
        assert(s[0] == a);
        assert(t[0] == b);
    } else {
        law_text_order(same.skip(1), a, x, b, y);
        assert(s[0] == same[0]);
        assert(t[0] == same[0]);
        assert(s.skip(1) =~= same.skip(1).push(a) + x);
        assert(t.skip(1) =~= same.skip(1).push(b) + y);
    }
}

} // verus!
