//! An ordered key/value tree with byte-string keys, kept sorted by the
//! lexicographic order of the key bytes (the order in which an embedded
//! key/value database hands its entries out).

use vstd::prelude::*;

verus! {

/// `a` and `b` agree on their first `n` bytes.
pub open spec fn agree_upto(a: Seq<u8>, b: Seq<u8>, n: int) -> bool {
    &&& 0 <= n <= a.len()
    &&& n <= b.len()
    &&& forall|i: int| 0 <= i < n ==> a[i] == b[i]
}

/// `n` is the position at which `a` first falls below `b`.
pub open spec fn below_at(a: Seq<u8>, b: Seq<u8>, n: int) -> bool {
    &&& agree_upto(a, b, n)
    &&& ((n == a.len() && n < b.len()) || (n < a.len() && n < b.len() && a[n] < b[n]))
}

/// Strict lexicographic order on byte strings.
pub open spec fn key_lt(a: Seq<u8>, b: Seq<u8>) -> bool {
    exists|n: int| #[trigger] below_at(a, b, n)
}

/// No key is below itself.
pub proof fn lemma_key_lt_irreflexive(a: Seq<u8>)
    ensures
        !key_lt(a, a),
{
}

/// The order on keys is transitive.
pub proof fn lemma_key_lt_transitive(a: Seq<u8>, b: Seq<u8>, c: Seq<u8>)
    requires
        key_lt(a, b),
        key_lt(b, c),
    ensures
        key_lt(a, c),
{
    let n1 = choose|n: int| below_at(a, b, n);
    let n2 = choose|n: int| below_at(b, c, n);
    if n1 < n2 {
        assert(below_at(a, c, n1));
    } else if n2 < n1 {
        assert(a[n2] == b[n2]);
        assert(below_at(a, c, n2));
    } else {
        assert(below_at(a, c, n1));
    }
}

/// Two keys never lie below each other.
pub proof fn lemma_key_lt_asymmetric(a: Seq<u8>, b: Seq<u8>)
    requires
        key_lt(a, b),
    ensures
        !key_lt(b, a),
{
    if key_lt(b, a) {
        lemma_key_lt_transitive(a, b, a);
    }
}

/// The outcome of comparing two keys.
#[derive(PartialEq, Eq, Structural, Clone, Copy, Debug)]
pub enum KeyOrder {
    Less,
    Equal,
    Greater,
}

/// Compares two byte strings lexicographically.
pub fn compare_keys(a: &[u8], b: &[u8]) -> (r: KeyOrder)
    ensures
        r == KeyOrder::Less <==> key_lt(a@, b@),
        r == KeyOrder::Equal <==> a@ == b@,
        r == KeyOrder::Greater <==> key_lt(b@, a@),
{
    let mut i: usize = 0;
    while i < a.len() && i < b.len() && a[i] == b[i]
        invariant
            i <= a.len(),
            i <= b.len(),
            agree_upto(a@, b@, i as int),
        decreases a.len() - i,
    {
        i = i + 1;
    }
    proof {
        lemma_key_lt_irreflexive(a@);
    }
    if i < a.len() && i < b.len() {
        if a[i] < b[i] {
            assert(below_at(a@, b@, i as int));
            proof {
                lemma_key_lt_asymmetric(a@, b@);
            }
            KeyOrder::Less
        } else {
            assert(below_at(b@, a@, i as int));
            proof {
                lemma_key_lt_asymmetric(b@, a@);
            }
            KeyOrder::Greater
        }
    } else if i < b.len() {
        assert(below_at(a@, b@, i as int));
        proof {
            lemma_key_lt_asymmetric(a@, b@);
        }
        KeyOrder::Less
    } else if i < a.len() {
        assert(below_at(b@, a@, i as int));
        proof {
            lemma_key_lt_asymmetric(b@, a@);
        }
        KeyOrder::Greater
    } else {
        assert(a@ =~= b@);
        KeyOrder::Equal
    }
}

/// The entries are in strictly increasing key order.
pub open spec fn sorted_keys<V>(s: Seq<(Seq<u8>, V)>) -> bool {
    forall|i: int, j: int| 0 <= i < j < s.len() ==> key_lt(#[trigger] s[i].0, #[trigger] s[j].0)
}

/// Some entry holds key `k`.
pub open spec fn has_key<V>(s: Seq<(Seq<u8>, V)>, k: Seq<u8>) -> bool {
    exists|i: int| 0 <= i < s.len() && #[trigger] s[i].0 == k
}

/// The value stored under `k`, if any.
pub open spec fn lookup<V>(s: Seq<(Seq<u8>, V)>, k: Seq<u8>) -> Option<V> {
    if has_key(s, k) {
        Some(s[choose|i: int| 0 <= i < s.len() && #[trigger] s[i].0 == k].1)
    } else {
        None
    }
}

/// A value that `lookup` finds is that of some entry with the key.
pub proof fn lemma_lookup_some<V>(s: Seq<(Seq<u8>, V)>, k: Seq<u8>)
    ensures
        lookup(s, k) is Some ==> exists|i: int|
            0 <= i < s.len() && #[trigger] s[i].0 == k && s[i].1 == lookup(s, k)->0,
{
    if has_key(s, k) {
        let v = lookup(s, k)->0;
        assert(exists|i: int| 0 <= i < s.len() && #[trigger] s[i].0 == k && s[i].1 == v);
    }
}

/// In a sorted sequence, the entry at `i` is the one that `lookup` finds.
pub proof fn lemma_lookup_at<V>(s: Seq<(Seq<u8>, V)>, i: int)
    requires
        sorted_keys(s),
        0 <= i < s.len(),
    ensures
        lookup(s, s[i].0) == Some(s[i].1),
{
    let k = s[i].0;
    assert(has_key(s, k));
    let j = choose|j: int| 0 <= j < s.len() && #[trigger] s[j].0 == k;
    if j < i {
        assert(key_lt(s[j].0, s[i].0));
        lemma_key_lt_irreflexive(k);
    } else if i < j {
        assert(key_lt(s[i].0, s[j].0));
        lemma_key_lt_irreflexive(k);
    }
}

/// `new` holds `v` under `k` and, under every other key, what `old` held.
pub open spec fn stored<V>(old: Seq<(Seq<u8>, V)>, new: Seq<(Seq<u8>, V)>, k: Seq<u8>, v: V) -> bool {
    &&& lookup(new, k) == Some(v)
    &&& forall|k2: Seq<u8>| k2 != k ==> #[trigger] lookup(new, k2) == lookup(old, k2)
}

/// `new` holds nothing under `k` and, under every other key, what `old`
/// held.
pub open spec fn erased<V>(old: Seq<(Seq<u8>, V)>, new: Seq<(Seq<u8>, V)>, k: Seq<u8>) -> bool {
    &&& lookup(new, k) is None
    &&& forall|k2: Seq<u8>| k2 != k ==> #[trigger] lookup(new, k2) == lookup(old, k2)
}

/// A read after a write gives what was written, and any other key what it
/// held before.
pub proof fn law_read_after_write<V>(
    old: Seq<(Seq<u8>, V)>,
    new: Seq<(Seq<u8>, V)>,
    k: Seq<u8>,
    v: V,
    k2: Seq<u8>,
)
    requires
        stored(old, new, k, v),
    ensures
        lookup(new, k2) == (if k2 == k {
            Some(v)
        } else {
            lookup(old, k2)
        }),
{
}

/// Writing a key that was absent and then deleting it leaves every key as
/// it was.
pub proof fn law_write_then_delete_restores<V>(
    m0: Seq<(Seq<u8>, V)>,
    m1: Seq<(Seq<u8>, V)>,
    m2: Seq<(Seq<u8>, V)>,
    k: Seq<u8>,
    v: V,
)
    requires
        lookup(m0, k) is None,
        stored(m0, m1, k, v),
        erased(m1, m2, k),
    ensures
        forall|k2: Seq<u8>| #[trigger] lookup(m2, k2) == lookup(m0, k2),
{
    assert forall|k2: Seq<u8>| #[trigger] lookup(m2, k2) == lookup(m0, k2) by {
        if k2 != k {
            assert(lookup(m1, k2) == lookup(m0, k2));
        }
    }
}

/// An ordered tree of byte-string keys and values.
pub struct OrderedTree<V> {
    entries: Vec<(Vec<u8>, V)>,
}

/// The entries of a vector of byte keys and values, keys as byte sequences.
pub open spec fn entries_model<V>(v: Seq<(Vec<u8>, V)>) -> Seq<(Seq<u8>, V)> {
    v.map_values(|e: (Vec<u8>, V)| (e.0@, e.1))
}

impl<V> OrderedTree<V> {
    /// The entries in key order, keys as byte sequences.
    pub closed spec fn model(&self) -> Seq<(Seq<u8>, V)> {
        entries_model(self.entries@)
    }

    /// The entries are kept in strictly increasing key order.
    pub open spec fn wf(&self) -> bool {
        sorted_keys(self.model())
    }

    #[verifier::type_invariant]
    spec fn inv(&self) -> bool {
        self.wf()
    }

    /// An empty tree.
    pub fn new() -> (t: Self)
        ensures
            t.wf(),
            t.model() == Seq::<(Seq<u8>, V)>::empty(),
    {
        let t = OrderedTree { entries: Vec::new() };
        assert(t.model() =~= Seq::<(Seq<u8>, V)>::empty());
        t
    }

    /// The number of entries.
    pub fn len(&self) -> (n: usize)
        ensures
            n == self.model().len(),
    {
        self.entries.len()
    }

    /// The key of the entry at position `i`.
    pub fn key_at(&self, i: usize) -> (k: &[u8])
        requires
            i < self.model().len(),
        ensures
            k@ == self.model()[i as int].0,
    {
        self.entries[i].0.as_slice()
    }

    /// The value of the entry at position `i`.
    pub fn value_at(&self, i: usize) -> (v: &V)
        requires
            i < self.model().len(),
        ensures
            *v == self.model()[i as int].1,
    {
        &self.entries[i].1
    }

    /// The first position whose key is not below `key`, and whether the key
    /// there equals `key`.
    fn seek(&self, key: &[u8]) -> (r: (usize, bool))
        requires
            self.wf(),
        ensures
            r.0 <= self.model().len(),
            forall|i: int| 0 <= i < r.0 ==> key_lt(#[trigger] self.model()[i].0, key@),
            r.0 < self.model().len() ==> !key_lt(self.model()[r.0 as int].0, key@),
            r.1 <==> (r.0 < self.model().len() && self.model()[r.0 as int].0 == key@),
            !r.1 && r.0 < self.model().len() ==> key_lt(key@, self.model()[r.0 as int].0),
    {
        let mut i: usize = 0;
        while i < self.entries.len()
            invariant
                self.wf(),
                i <= self.model().len(),
                self.model().len() == self.entries@.len(),
                forall|j: int| 0 <= j < i ==> key_lt(#[trigger] self.model()[j].0, key@),
            decreases self.entries.len() - i,
        {
            let o = compare_keys(self.entries[i].0.as_slice(), key);
            assert(self.model()[i as int].0 == self.entries@[i as int].0@);
            match o {
                KeyOrder::Less => {},
                KeyOrder::Equal => {
                    proof {
                        lemma_key_lt_irreflexive(key@);
                    }
                    return (i, true);
                },
                KeyOrder::Greater => {
                    proof {
                        lemma_key_lt_asymmetric(key@, self.model()[i as int].0);
                    }
                    return (i, false);
                },
            }
            i = i + 1;
        }
        (i, false)
    }

    /// The value stored under `key`.
    pub fn get(&self, key: &[u8]) -> (r: Option<&V>)
        ensures
            r matches Some(v) ==> lookup(self.model(), key@) == Some(*v),
            r is None ==> lookup(self.model(), key@) is None,
    {
        proof {
            use_type_invariant(self);
        }
        let (pos, found) = self.seek(key);
        if found {
            proof {
                lemma_lookup_at(self.model(), pos as int);
            }
            Some(&self.entries[pos].1)
        } else {
            proof {
                if has_key(self.model(), key@) {
                    let j = choose|j: int|
                        0 <= j < self.model().len() && #[trigger] self.model()[j].0 == key@;
                    if j < pos {
                        lemma_key_lt_irreflexive(key@);
                    } else if j > pos {
                        assert(key_lt(self.model()[pos as int].0, self.model()[j].0));
                        lemma_key_lt_asymmetric(key@, self.model()[pos as int].0);
                    }
                }
            }
            None
        }
    }

    /// Stores `value` under `key`, replacing any value already there.
    pub fn put(&mut self, key: Vec<u8>, value: V)
        ensures
            final(self).wf(),
            stored(old(self).model(), final(self).model(), key@, value),
            has_key(old(self).model(), key@) ==> final(self).model().len() == old(
                self,
            ).model().len(),
            !has_key(old(self).model(), key@) ==> final(self).model().len() == old(
                self,
            ).model().len() + 1,
    {
        proof {
            use_type_invariant(&*self);
        }
        let ghost old_m = self.model();
        let ghost k = key@;
        let (pos, found) = self.seek(key.as_slice());
        proof {
            if !found && has_key(old_m, k) {
                let j = choose|j: int| 0 <= j < old_m.len() && #[trigger] old_m[j].0 == k;
                if j < pos {
                    lemma_key_lt_irreflexive(k);
                } else if j > pos {
                    assert(key_lt(old_m[pos as int].0, old_m[j].0));
                    lemma_key_lt_asymmetric(k, old_m[pos as int].0);
                }
            }
        }
        let mut entries: Vec<(Vec<u8>, V)> = Vec::new();
        std::mem::swap(&mut entries, &mut self.entries);
        if found {
            entries.set(pos, (key, value));
            let ghost new_m = entries_model(entries@);
            assert(new_m =~= old_m.update(pos as int, (k, value)));
        } else {
            entries.insert(pos, (key, value));
            let ghost new_m = entries_model(entries@);
            assert(new_m =~= old_m.insert(pos as int, (k, value)));
            assert forall|i: int, j: int| 0 <= i < j < new_m.len() implies key_lt(
                #[trigger] new_m[i].0,
                #[trigger] new_m[j].0,
            ) by {
                if j < pos {
                    assert(new_m[i] == old_m[i] && new_m[j] == old_m[j]);
                } else if j == pos {
                    assert(new_m[i] == old_m[i]);
                } else if i == pos {
                    assert(new_m[j] == old_m[j - 1]);
                    if j - 1 > pos {
                        assert(key_lt(old_m[pos as int].0, old_m[j - 1].0));
                        lemma_key_lt_transitive(k, old_m[pos as int].0, old_m[j - 1].0);
                    }
                } else if i < pos {
                    assert(new_m[i] == old_m[i] && new_m[j] == old_m[j - 1]);
                    if j - 1 > i {
                    } else {
                        assert(false);
                    }
                } else {
                    assert(new_m[i] == old_m[i - 1] && new_m[j] == old_m[j - 1]);
                }
            }
        }
        let ghost new_m = entries_model(entries@);
        proof {
            lemma_lookup_at(new_m, pos as int);
            assert forall|kk: Seq<u8>| kk != k implies #[trigger] lookup(new_m, kk) == lookup(
                old_m,
                kk,
            ) by {
                if has_key(old_m, kk) {
                    let j = choose|j: int| 0 <= j < old_m.len() && #[trigger] old_m[j].0 == kk;
                    lemma_lookup_at(old_m, j);
                    let nj = if found || j < pos {
                        j
                    } else {
                        j + 1
                    };
                    assert(new_m[nj] == old_m[j]);
                    lemma_lookup_at(new_m, nj);
                }
                if has_key(new_m, kk) {
                    let j = choose|j: int| 0 <= j < new_m.len() && #[trigger] new_m[j].0 == kk;
                    assert(j != pos);
                    let oj = if found || j < pos {
                        j
                    } else {
                        j - 1
                    };
                    assert(new_m[j] == old_m[oj]);
                    assert(has_key(old_m, kk));
                }
            }
        }
        self.entries = entries;
    }

    /// Removes the entry at position `i`.
    pub fn remove_at(&mut self, i: usize)
        requires
            i < old(self).model().len(),
        ensures
            final(self).wf(),
            final(self).model() == old(self).model().remove(i as int),
    {
        proof {
            use_type_invariant(&*self);
        }
        let ghost old_m = self.model();
        let mut entries: Vec<(Vec<u8>, V)> = Vec::new();
        std::mem::swap(&mut entries, &mut self.entries);
        entries.remove(i);
        let ghost new_m = entries_model(entries@);
        assert(new_m =~= old_m.remove(i as int));
        assert forall|a: int, b: int| 0 <= a < b < new_m.len() implies key_lt(
            #[trigger] new_m[a].0,
            #[trigger] new_m[b].0,
        ) by {
            let oa = if a < i {
                a
            } else {
                a + 1
            };
            let ob = if b < i {
                b
            } else {
                b + 1
            };
            assert(new_m[a] == old_m[oa] && new_m[b] == old_m[ob]);
        }
        self.entries = entries;
    }



    /// Removes the entry under `key`; says whether there was one.
    pub fn del(&mut self, key: &[u8]) -> (removed: bool)
        ensures
            final(self).wf(),
            removed == has_key(old(self).model(), key@),
            erased(old(self).model(), final(self).model(), key@),
            removed ==> final(self).model().len() + 1 == old(self).model().len(),
            !removed ==> final(self).model() == old(self).model(),
    {
        proof {
            use_type_invariant(&*self);
        }
        let ghost old_m = self.model();
        let ghost k = key@;
        let (pos, found) = self.seek(key);
        proof {
            if !found && has_key(old_m, k) {
                let j = choose|j: int| 0 <= j < old_m.len() && #[trigger] old_m[j].0 == k;
                if j < pos {
                    lemma_key_lt_irreflexive(k);
                } else if j > pos {
                    assert(key_lt(old_m[pos as int].0, old_m[j].0));
                    lemma_key_lt_asymmetric(k, old_m[pos as int].0);
                }
            }
        }
        if !found {
            return false;
        }
        let mut entries: Vec<(Vec<u8>, V)> = Vec::new();
        std::mem::swap(&mut entries, &mut self.entries);
        entries.remove(pos);
        let ghost new_m = entries_model(entries@);
        assert(new_m =~= old_m.remove(pos as int));
        proof {
            assert forall|i: int, j: int| 0 <= i < j < new_m.len() implies key_lt(
                #[trigger] new_m[i].0,
                #[trigger] new_m[j].0,
            ) by {
                let oi = if i < pos {
                    i
                } else {
                    i + 1
                };
                let oj = if j < pos {
                    j
                } else {
                    j + 1
                };
                assert(new_m[i] == old_m[oi] && new_m[j] == old_m[oj]);
            }
            if has_key(new_m, k) {
                let j = choose|j: int| 0 <= j < new_m.len() && #[trigger] new_m[j].0 == k;
                let oj = if j < pos {
                    j
                } else {
                    j + 1
                };
                assert(new_m[j] == old_m[oj]);
                if oj < pos {
                    assert(key_lt(old_m[oj].0, old_m[pos as int].0));
                } else {
                    assert(key_lt(old_m[pos as int].0, old_m[oj].0));
                }
                lemma_key_lt_irreflexive(k);
            }
            assert forall|kk: Seq<u8>| kk != k implies #[trigger] lookup(new_m, kk) == lookup(
                old_m,
                kk,
            ) by {
                if has_key(old_m, kk) {
                    let j = choose|j: int| 0 <= j < old_m.len() && #[trigger] old_m[j].0 == kk;
                    lemma_lookup_at(old_m, j);
                    assert(j != pos);
                    let nj = if j < pos {
                        j
                    } else {
                        j - 1
                    };
                    assert(new_m[nj] == old_m[j]);
                    lemma_lookup_at(new_m, nj);
                }
                if has_key(new_m, kk) {
                    let j = choose|j: int| 0 <= j < new_m.len() && #[trigger] new_m[j].0 == kk;
                    let oj = if j < pos {
                        j
                    } else {
                        j + 1
                    };
                    assert(new_m[j] == old_m[oj]);
                    assert(has_key(old_m, kk));
                }
            }
        }
        self.entries = entries;
        true
    }
}

} // verus!
