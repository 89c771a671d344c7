//! A small map from string keys to values that keeps insertion order: each key
//! occurs at most once, a new key goes to the end, and an existing key keeps its
//! place when its value is replaced.

use vstd::prelude::*;
use crate::text::str_eq;

verus! {

/// A map from string keys to values, in insertion order.
pub struct Table<V> {
    entries: Vec<(String, V)>,
}

/// The keys of a sequence of entries.
pub open spec fn keys_of<X>(s: Seq<(Seq<char>, X)>) -> Seq<Seq<char>> {
    s.map_values(|e: (Seq<char>, X)| e.0)
}

/// The map that a sequence of entries with distinct keys stands for.
pub open spec fn map_of<X>(s: Seq<(Seq<char>, X)>) -> Map<Seq<char>, X> {
    Map::new(
        |k: Seq<char>| keys_of(s).contains(k),
        |k: Seq<char>| s[keys_of(s).index_of(k)].1,
    )
}

/// What a sequence with one more element at its end contains.
pub proof fn lemma_push_contains<X>(s: Seq<X>, x: X)
    ensures
        forall|y: X| #[trigger] s.push(x).contains(y) == (s.contains(y) || y == x),
{
    assert forall|y: X| #[trigger] s.push(x).contains(y) == (s.contains(y) || y == x) by {
        if s.contains(y) {
            let j = choose|j: int| 0 <= j < s.len() && s[j] == y;
            assert(s.push(x)[j] == y);
        }
        if y == x {
            assert(s.push(x)[s.len() as int] == y);
        }
        if s.push(x).contains(y) && y != x {
            let j = choose|j: int| 0 <= j < s.len() + 1 && s.push(x)[j] == y;
            assert(s[j] == y);
        }
    }
}

impl<V: View> Table<V> {
    /// The entries in order, each key by its characters and each value by its view.
    pub closed spec fn order(&self) -> Seq<(Seq<char>, V::V)> {
        self.entries@.map_values(|e: (String, V)| (e.0@, e.1@))
    }

    /// The values in order.
    pub closed spec fn values(&self) -> Seq<V> {
        self.entries@.map_values(|e: (String, V)| e.1)
    }

    /// Each key occurs once.
    pub closed spec fn wf(&self) -> bool {
        keys_of(self.order()).no_duplicates()
    }

    /// An empty table.
    pub fn new() -> (t: Self)
        ensures
            t.wf(),
            t.order() == Seq::<(Seq<char>, V::V)>::empty(),
            t@ == Map::<Seq<char>, V::V>::empty(),
    {
        let t = Table { entries: Vec::new() };
        assert(t.order() =~= Seq::<(Seq<char>, V::V)>::empty());
        assert(t@ =~= Map::<Seq<char>, V::V>::empty());
        t
    }

    /// The number of entries.
    pub fn len(&self) -> (n: usize)
        ensures
            n == self.order().len(),
            n == self.values().len(),
    {
        self.entries.len()
    }

    /// The key of entry `i`.
    pub fn key(&self, i: usize) -> (k: &String)
        requires
            i < self.order().len(),
        ensures
            k@ == self.order()[i as int].0,
    {
        &self.entries[i].0
    }

    /// The value of entry `i`.
    pub fn value(&self, i: usize) -> (v: &V)
        requires
            i < self.order().len(),
        ensures
            v@ == self.order()[i as int].1,
            *v == self.values()[i as int],
    {
        &self.entries[i].1
    }

    /// The place of `key`, if it is present.
    pub fn find(&self, key: &str) -> (r: Option<usize>)
        requires
            self.wf(),
        ensures
            match r {
                Some(i) => i < self.order().len() && self.order()[i as int].0 == key@,
                None => !keys_of(self.order()).contains(key@),
            },
    {
        let mut i: usize = 0;
        while i < self.entries.len()
            invariant
                i <= self.entries@.len(),
                forall|j: int| 0 <= j < i ==> self.order()[j].0 != key@,
            decreases self.entries@.len() - i,
        {
            if str_eq(self.entries[i].0.as_str(), key) {
                return Some(i);
            }
            i = i + 1;
        }
        proof {
            if keys_of(self.order()).contains(key@) {
                let j = choose|j: int| 0 <= j < keys_of(self.order()).len() && keys_of(self.order())[j] == key@;
                assert(self.order()[j].0 == key@);
            }
        }
        None
    }

    proof fn lemma_index_of(&self, i: int)
        requires
            self.wf(),
            0 <= i < self.order().len(),
        ensures
            keys_of(self.order()).contains(self.order()[i].0),
            keys_of(self.order()).index_of(self.order()[i].0) == i,
            self@.contains_key(self.order()[i].0),
            self@[self.order()[i].0] == self.order()[i].1,
    {
        let ks = keys_of(self.order());
        assert(ks[i] == self.order()[i].0);
        let j = ks.index_of(self.order()[i].0);
        assert(ks.contains(self.order()[i].0));
        assert(ks[j] == ks[i]);
    }

    /// The view relates to the order: every entry is in the map with its value,
    /// and every key of the map is the key of an entry.
    pub proof fn lemma_order(&self)
        requires
            self.wf(),
        ensures
            self@ == map_of(self.order()),
            keys_of(self.order()).no_duplicates(),
            forall|i: int|
                0 <= i < self.order().len() ==> #[trigger] self@.contains_key(self.order()[i].0)
                    && self@[self.order()[i].0] == self.order()[i].1,
            forall|k: Seq<char>|
                #[trigger] self@.contains_key(k) ==> exists|i: int|
                    0 <= i < self.order().len() && #[trigger] self.order()[i].0 == k,
            self.values().len() == self.order().len(),
            forall|i: int| 0 <= i < self.order().len() ==> #[trigger] self.values()[i]@ == self.order()[i].1,
    {
        assert forall|i: int| 0 <= i < self.order().len() implies #[trigger] self@.contains_key(
            self.order()[i].0,
        ) && self@[self.order()[i].0] == self.order()[i].1 by {
            self.lemma_index_of(i);
        }
        assert forall|k: Seq<char>| #[trigger] self@.contains_key(k) implies exists|i: int|
            0 <= i < self.order().len() && #[trigger] self.order()[i].0 == k by {
            let ks = keys_of(self.order());
            let j = choose|j: int| 0 <= j < ks.len() && ks[j] == k;
            assert(self.order()[j].0 == k);
        }
    }

    /// The value of `key`, if it is present.
    pub fn get(&self, key: &str) -> (r: Option<&V>)
        requires
            self.wf(),
        ensures
            r is Some == self@.contains_key(key@),
            r matches Some(v) ==> v@ == self@[key@],
    {
        match self.find(key) {
            Some(i) => {
                proof {
                    self.lemma_index_of(i as int);
                }
                Some(&self.entries[i].1)
            },
            None => None,
        }
    }

    /// Whether `key` is present.
    pub fn contains_key(&self, key: &str) -> (b: bool)
        requires
            self.wf(),
        ensures
            b == self@.contains_key(key@),
    {
        match self.find(key) {
            Some(i) => {
                proof {
                    self.lemma_index_of(i as int);
                }
                true
            },
            None => false,
        }
    }

    /// Sets the value of `key`: in place when the key is present, at the end otherwise.
    pub fn insert(&mut self, key: String, value: V)
        requires
            old(self).wf(),
        ensures
            final(self).wf(),
            final(self)@ == old(self)@.insert(key@, value@),
            keys_of(old(self).order()).contains(key@) ==> final(self).order() == old(self).order().update(
                keys_of(old(self).order()).index_of(key@),
                (key@, value@),
            ),
            keys_of(old(self).order()).contains(key@) ==> keys_of(final(self).order()) == keys_of(
                old(self).order(),
            ),
            !keys_of(old(self).order()).contains(key@) ==> final(self).order() == old(self).order().push(
                (key@, value@),
            ),
    {
        let ghost old_order = self.order();
        let ghost kv = (key@, value@);
        match self.find(key.as_str()) {
            Some(i) => {
                self.entries.set(i, (key, value));
                proof {
                    old(self).lemma_index_of(i as int);
                    assert(self.order() =~= old_order.update(i as int, kv));
                    assert(keys_of(self.order()) =~= keys_of(old_order));
                    assert(self.wf());
                    assert forall|k: Seq<char>| #[trigger] self@.contains_key(k) == old(self)@.insert(
                        kv.0,
                        kv.1,
                    ).contains_key(k) by {
                        if k != kv.0 && old(self)@.contains_key(k) {
                            old(self).lemma_order();
                            let j = choose|j: int| 0 <= j < old_order.len() && #[trigger] old_order[j].0 == k;
                            assert(keys_of(self.order())[j] == k);
                        }
                        if k == kv.0 {
                            assert(keys_of(self.order())[i as int] == k);
                        }
                    }
                    assert forall|k: Seq<char>| #[trigger] self@.contains_key(k) implies self@[k]
                        == old(self)@.insert(kv.0, kv.1)[k] by {
                        let ks = keys_of(self.order());
                        let j = choose|j: int| 0 <= j < ks.len() && ks[j] == k;
                        self.lemma_index_of(j);
                        if j != i {
                            old(self).lemma_index_of(j);
                            assert(ks[j] != ks[i as int]);
                            assert(k != kv.0);
                        }
                    }
                    assert(self@ =~= old(self)@.insert(kv.0, kv.1));
                }
            },
            None => {
                self.entries.push((key, value));
                proof {
                    assert(self.order() =~= old_order.push(kv));
                    assert(keys_of(self.order()) =~= keys_of(old_order).push(kv.0));
                    assert(self.wf());
                    let n = old_order.len() as int;
                    assert forall|k: Seq<char>| #[trigger] self@.contains_key(k) == old(self)@.insert(
                        kv.0,
                        kv.1,
                    ).contains_key(k) by {
                        if k != kv.0 && old(self)@.contains_key(k) {
                            old(self).lemma_order();
                            let j = choose|j: int| 0 <= j < old_order.len() && #[trigger] old_order[j].0 == k;
                            assert(keys_of(self.order())[j] == k);
                        }
                        if k == kv.0 {
                            assert(keys_of(self.order())[n] == k);
                        }
                        if self@.contains_key(k) && k != kv.0 {
                            let ks = keys_of(self.order());
                            let j = choose|j: int| 0 <= j < ks.len() && ks[j] == k;
                            assert(j != n);
                            assert(keys_of(old_order)[j] == k);
                        }
                    }
                    assert forall|k: Seq<char>| #[trigger] self@.contains_key(k) implies self@[k]
                        == old(self)@.insert(kv.0, kv.1)[k] by {
                        let ks = keys_of(self.order());
                        let j = choose|j: int| 0 <= j < ks.len() && ks[j] == k;
                        self.lemma_index_of(j);
                        if j != n {
                            old(self).lemma_index_of(j);
                        }
                    }
                    assert(self@ =~= old(self)@.insert(kv.0, kv.1));
                }
            },
        }
    }

    /// Removes `key` if it is present; the other entries keep their order.
    pub fn remove(&mut self, key: &str)
        requires
            old(self).wf(),
        ensures
            final(self).wf(),
            final(self)@ == old(self)@.remove(key@),
            keys_of(old(self).order()).contains(key@) ==> final(self).order() == old(self).order().remove(
                keys_of(old(self).order()).index_of(key@),
            ),
            !keys_of(old(self).order()).contains(key@) ==> final(self).order() == old(self).order(),
    {
        let ghost old_order = self.order();
        match self.find(key) {
            Some(i) => {
                self.entries.remove(i);
                proof {
                    old(self).lemma_index_of(i as int);
                    assert(self.order() =~= old_order.remove(i as int));
                    let ks = keys_of(self.order());
                    let oks = keys_of(old_order);
                    assert(ks =~= oks.remove(i as int));
                    assert forall|a: int, b: int| 0 <= a < b < ks.len() implies ks[a] != ks[b] by {
                        let a2 = if a < i { a } else { a + 1 };
                        let b2 = if b < i { b } else { b + 1 };
                        assert(ks[a] == oks[a2]);
                        assert(ks[b] == oks[b2]);
                    }
                    assert(self.wf());
                    assert forall|k: Seq<char>| #[trigger] self@.contains_key(k) == old(self)@.remove(
                        key@,
                    ).contains_key(k) by {
                        if k != key@ && old(self)@.contains_key(k) {
                            old(self).lemma_order();
                            let j = choose|j: int| 0 <= j < old_order.len() && #[trigger] old_order[j].0 == k;
                            assert(oks[j] == k);
                            assert(oks[i as int] == key@);
                            assert(j != i);
                            let j2 = if j < i { j } else { j - 1 };
                            assert(ks[j2] == oks[j]);
                            assert(ks[j2] == k);
                        }
                        if self@.contains_key(k) {
                            let j = choose|j: int| 0 <= j < ks.len() && ks[j] == k;
                            let j2 = if j < i { j } else { j + 1 };
                            assert(oks[j2] == k);
                            assert(j2 != i);
                            assert(oks[i as int] == key@);
                            assert(k != key@);
                            assert(oks.contains(k));
                        }
                    }
                    assert forall|k: Seq<char>| #[trigger] self@.contains_key(k) implies self@[k]
                        == old(self)@.remove(key@)[k] by {
                        let j = choose|j: int| 0 <= j < ks.len() && ks[j] == k;
                        self.lemma_index_of(j);
                        let j2 = if j < i { j } else { j + 1 };
                        old(self).lemma_index_of(j2);
                    }
                    assert(self@ =~= old(self)@.remove(key@));
                }
            },
            None => {
                proof {
                    old(self).lemma_order();
                    assert forall|k: Seq<char>| #[trigger] old(self)@.contains_key(k) implies k != key@ by {
                        let j = choose|j: int| 0 <= j < old_order.len() && #[trigger] old_order[j].0 == k;
                        assert(keys_of(old_order)[j] == k);
                    }
                    assert(self@ =~= old(self)@.remove(key@));
                }
            },
        }
    }

    /// Removes every entry.
    pub fn clear(&mut self)
        ensures
            final(self).wf(),
            final(self).order() == Seq::<(Seq<char>, V::V)>::empty(),
            final(self)@ == Map::<Seq<char>, V::V>::empty(),
    {
        self.entries.clear();
        assert(self.order() =~= Seq::<(Seq<char>, V::V)>::empty());
        assert(self@ =~= Map::<Seq<char>, V::V>::empty());
    }
}

impl<V: View> View for Table<V> {
    type V = Map<Seq<char>, V::V>;

    closed spec fn view(&self) -> Map<Seq<char>, V::V> {
        map_of(self.order())
    }
}

} // verus!
