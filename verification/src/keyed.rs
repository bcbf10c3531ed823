//! A small map from strings to values, kept as a list of entries in which no
//! key occurs twice.

use vstd::prelude::*;
use crate::text::str_eq;

verus! {

/// No key occurs twice.
pub open spec fn unique_keys<K, V>(s: Seq<(K, V)>) -> bool {
    forall|i: int, j: int| 0 <= i < s.len() && 0 <= j < s.len() && i != j ==> #[trigger] s[i].0 != #[trigger] s[j].0
}

/// Some entry holds key `k`.
pub open spec fn holds_key<K, V>(s: Seq<(K, V)>, k: K) -> bool {
    exists|i: int| 0 <= i < s.len() && #[trigger] s[i].0 == k
}

/// The value under `k`, if any.
pub open spec fn value_of<K, V>(s: Seq<(K, V)>, k: K) -> Option<V> {
    if holds_key(s, k) {
        Some(s[choose|i: int| 0 <= i < s.len() && #[trigger] s[i].0 == k].1)
    } else {
        None
    }
}

/// With unique keys, the entry at `i` is the one `value_of` finds.
pub proof fn lemma_value_at<K, V>(s: Seq<(K, V)>, i: int)
    requires
        unique_keys(s),
        0 <= i < s.len(),
    ensures
        value_of(s, s[i].0) == Some(s[i].1),
{
    let k = s[i].0;
    assert(holds_key(s, k));
    let j = choose|j: int| 0 <= j < s.len() && #[trigger] s[j].0 == k;
    if j != i {
        assert(s[i].0 != s[j].0);
    }
}

/// A value that `value_of` finds is that of some entry with the key.
pub proof fn lemma_value_of_some<K, V>(s: Seq<(K, V)>, k: K)
    ensures
        value_of(s, k) matches Some(v) ==> exists|i: int|
            0 <= i < s.len() && #[trigger] s[i].0 == k && s[i].1 == v,
{
    if holds_key(s, k) {
        let i = choose|i: int| 0 <= i < s.len() && #[trigger] s[i].0 == k;
        assert(s[i].0 == k && s[i].1 == value_of(s, k)->0);
    }
}

/// A map from strings to values.
#[derive(Debug)]
pub struct TextMap<V> {
    entries: Vec<(String, V)>,
}

impl<V> TextMap<V> {
    /// The entries, keys as character sequences.
    pub closed spec fn model(&self) -> Seq<(Seq<char>, V)> {
        self.entries@.map_values(|e: (String, V)| (e.0@, e.1))
    }

    /// No key occurs twice.
    #[verifier::type_invariant]
    spec fn inv(&self) -> bool {
        unique_keys(self.model())
    }

    /// The value under `k`, if any.
    pub open spec fn get_spec(&self, k: Seq<char>) -> Option<V> {
        value_of(self.model(), k)
    }

    /// An empty map.
    pub fn new() -> (m: Self)
        ensures
            m.model().len() == 0,
            forall|k: Seq<char>| #[trigger] m.get_spec(k) is None,
    {
        let m = TextMap { entries: Vec::new() };
        assert(m.model() =~= Seq::<(Seq<char>, V)>::empty());
        m
    }

    /// The number of entries.
    pub fn len(&self) -> (n: usize)
        ensures
            n == self.model().len(),
    {
        self.entries.len()
    }

    /// The key of the entry at position `i`.
    pub fn key_at(&self, i: usize) -> (k: &String)
        requires
            i < self.model().len(),
        ensures
            k@ == self.model()[i as int].0,
            forall|j: int| 0 <= j < self.model().len() && j != i ==> #[trigger] self.model()[j].0 != k@,
    {
        proof {
            use_type_invariant(self);
        }
        &self.entries[i].0
    }

    /// The value of the entry at position `i`.
    pub fn value_at(&self, i: usize) -> (v: &V)
        requires
            i < self.model().len(),
        ensures
            *v == self.model()[i as int].1,
            self.get_spec(self.model()[i as int].0) == Some(*v),
    {
        proof {
            use_type_invariant(self);
            lemma_value_at(self.model(), i as int);
        }
        &self.entries[i].1
    }

    fn position(&self, key: &str) -> (r: Option<usize>)
        ensures
            match r {
                Some(i) => i < self.model().len() && self.model()[i as int].0 == key@,
                None => !holds_key(self.model(), key@),
            },
    {
        proof {
            use_type_invariant(self);
        }
        let ghost m = self.model();
        for i in 0..self.entries.len()
            invariant
                m == self.model(),
                m.len() == self.entries@.len(),
                forall|j: int| 0 <= j < i ==> (#[trigger] m[j]).0 != key@,
        {
            assert(m[i as int].0 == self.entries@[i as int].0@);
            if str_eq(self.entries[i].0.as_str(), key) {
                return Some(i);
            }
        }
        None
    }

    /// Whether `key` has a value.
    pub fn contains_key(&self, key: &str) -> (r: bool)
        ensures
            r == self.get_spec(key@) is Some,
    {
        self.position(key).is_some()
    }

    /// The value under `key`.
    pub fn get(&self, key: &str) -> (r: Option<&V>)
        ensures
            match r {
                Some(v) => self.get_spec(key@) == Some(*v),
                None => self.get_spec(key@) is None,
            },
    {
        proof {
            use_type_invariant(self);
        }
        match self.position(key) {
            Some(i) => {
                proof {
                    lemma_value_at(self.model(), i as int);
                }
                Some(&self.entries[i].1)
            },
            None => None,
        }
    }

    /// Stores `value` under `key`, replacing any value already there.
    pub fn insert(&mut self, key: String, value: V)
        ensures
            final(self).get_spec(key@) == Some(value),
            forall|k: Seq<char>|
                k != key@ ==> #[trigger] final(self).get_spec(k) == old(self).get_spec(k),
            final(self).model().len() == old(self).model().len() + (if old(self).get_spec(
                key@,
            ) is Some {
                0int
            } else {
                1int
            }),
            old(self).get_spec(key@) is None ==> final(self).model() == old(self).model().push(
                (key@, value),
            ),
    {
        proof {
            use_type_invariant(&*self);
        }
        let ghost old_m = self.model();
        let ghost k = key@;
        match self.position(key.as_str()) {
            Some(i) => {
                proof {
                    lemma_value_at(old_m, i as int);
                }
                let mut entries = Vec::new();
                std::mem::swap(&mut entries, &mut self.entries);
                entries.set(i, (key, value));
                assert(entries@.map_values(|e: (String, V)| (e.0@, e.1)) =~= old_m.update(i as int, (k, value)));
                proof {
                    let m2 = old_m.update(i as int, (k, value));
                    assert forall|a: int, b: int|
                        0 <= a < m2.len() && 0 <= b < m2.len() && a != b implies #[trigger] m2[a].0
                        != #[trigger] m2[b].0 by {
                        assert(old_m[a].0 != old_m[b].0);
                    }
                }
                self.entries = entries;
                let ghost m = self.model();
                assert(m =~= old_m.update(i as int, (k, value)));
                proof {
                    lemma_value_at(m, i as int);
                    assert forall|kk: Seq<char>| kk != k implies #[trigger] value_of(m, kk)
                        == value_of(old_m, kk) by {
                        if holds_key(old_m, kk) {
                            let j = choose|j: int| 0 <= j < old_m.len() && #[trigger] old_m[j].0 == kk;
                            lemma_value_at(old_m, j);
                            assert(m[j] == old_m[j]);
                            lemma_value_at(m, j);
                        }
                        if holds_key(m, kk) {
                            let j = choose|j: int| 0 <= j < m.len() && #[trigger] m[j].0 == kk;
                            assert(m[j] == old_m[j]);
                        }
                    }
                }
            },
            None => {
                let mut entries = Vec::new();
                std::mem::swap(&mut entries, &mut self.entries);
                entries.push((key, value));
                assert(entries@.map_values(|e: (String, V)| (e.0@, e.1)) =~= old_m.push((k, value)));
                proof {
                    let m2 = old_m.push((k, value));
                    assert forall|a: int, b: int|
                        0 <= a < m2.len() && 0 <= b < m2.len() && a != b implies #[trigger] m2[a].0
                        != #[trigger] m2[b].0 by {
                        if a < old_m.len() && b < old_m.len() {
                            assert(old_m[a].0 != old_m[b].0);
                        } else if a < old_m.len() {
                            assert(m2[a] == old_m[a]);
                        } else {
                            assert(m2[b] == old_m[b]);
                        }
                    }
                }
                self.entries = entries;
                let ghost m = self.model();
                assert(m =~= old_m.push((k, value)));
                proof {
                    lemma_value_at(m, old_m.len() as int);
                    assert forall|kk: Seq<char>| kk != k implies #[trigger] value_of(m, kk)
                        == value_of(old_m, kk) by {
                        if holds_key(old_m, kk) {
                            let j = choose|j: int| 0 <= j < old_m.len() && #[trigger] old_m[j].0 == kk;
                            lemma_value_at(old_m, j);
                            assert(m[j] == old_m[j]);
                            lemma_value_at(m, j);
                        }
                        if holds_key(m, kk) {
                            let j = choose|j: int| 0 <= j < m.len() && #[trigger] m[j].0 == kk;
                            assert(m[j] == old_m[j]);
                        }
                    }
                }
            },
        }
    }

    /// Removes the entry under `key`, if any.
    pub fn remove(&mut self, key: &str)
        ensures
            final(self).get_spec(key@) is None,
            forall|k: Seq<char>|
                k != key@ ==> #[trigger] final(self).get_spec(k) == old(self).get_spec(k),
    {
        proof {
            use_type_invariant(&*self);
        }
        let ghost old_m = self.model();
        let ghost k = key@;
        match self.position(key) {
            Some(i) => {
                let mut entries = Vec::new();
                std::mem::swap(&mut entries, &mut self.entries);
                entries.remove(i);
                let ghost m = entries@.map_values(|e: (String, V)| (e.0@, e.1));
                assert(m =~= old_m.remove(i as int));
                proof {
                    assert forall|a: int, b: int|
                        0 <= a < m.len() && 0 <= b < m.len() && a != b implies #[trigger] m[a].0
                        != #[trigger] m[b].0 by {
                        let oa = if a < i {
                            a
                        } else {
                            a + 1
                        };
                        let ob = if b < i {
                            b
                        } else {
                            b + 1
                        };
                        assert(m[a] == old_m[oa] && m[b] == old_m[ob]);
                    }
                    if holds_key(m, k) {
                        let j = choose|j: int| 0 <= j < m.len() && #[trigger] m[j].0 == k;
                        let oj = if j < i {
                            j
                        } else {
                            j + 1
                        };
                        assert(m[j] == old_m[oj]);
                    }
                    assert forall|kk: Seq<char>| kk != k implies #[trigger] value_of(m, kk)
                        == value_of(old_m, kk) by {
                        if holds_key(old_m, kk) {
                            let j = choose|j: int| 0 <= j < old_m.len() && #[trigger] old_m[j].0 == kk;
                            lemma_value_at(old_m, j);
                            let nj = if j < i {
                                j
                            } else {
                                j - 1
                            };
                            assert(m[nj] == old_m[j]);
                            lemma_value_at(m, nj);
                        }
                        if holds_key(m, kk) {
                            let j = choose|j: int| 0 <= j < m.len() && #[trigger] m[j].0 == kk;
                            let oj = if j < i {
                                j
                            } else {
                                j + 1
                            };
                            assert(m[j] == old_m[oj]);
                        }
                    }
                }
                self.entries = entries;
            },
            None => {},
        }
    }
}

impl<V: Clone> Clone for TextMap<V> {
    /// A copy with the same keys in the same order, each value cloned.
    fn clone(&self) -> (r: Self)
        ensures
            r.model().len() == self.model().len(),
            forall|i: int| 0 <= i < self.model().len() ==> (#[trigger] r.model()[i]).0 == self.model()[i].0,
            forall|i: int| 0 <= i < self.model().len() ==> cloned::<V>(self.model()[i].1, #[trigger] r.model()[i].1),
    {
        proof {
            use_type_invariant(self);
        }
        let ghost m = self.model();
        let mut entries: Vec<(String, V)> = Vec::new();
        for i in 0..self.entries.len()
            invariant
                m == self.model(),
                m.len() == self.entries@.len(),
                entries@.len() == i,
                forall|j: int| 0 <= j < i ==> (#[trigger] entries@[j]).0@ == m[j].0,
                forall|j: int| 0 <= j < i ==> cloned::<V>(m[j].1, #[trigger] entries@[j].1),
        {
            assert(m[i as int] == (self.entries@[i as int].0@, self.entries@[i as int].1));
            let k = self.entries[i].0.clone();
            let v = self.entries[i].1.clone();
            entries.push((k, v));
        }
        let ghost m2 = entries@.map_values(|e: (String, V)| (e.0@, e.1));
        assert forall|a: int, b: int|
            0 <= a < m2.len() && 0 <= b < m2.len() && a != b implies #[trigger] m2[a].0 != #[trigger] m2[b].0 by {
            assert(m2[a].0 == m[a].0 && m2[b].0 == m[b].0);
        }
        TextMap { entries }
    }
}

} // verus!
