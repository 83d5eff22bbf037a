//! A map from strings to values that keeps its entries in key order, as a
//! `BTreeMap<String, V>` does.

use vstd::prelude::*;
use crate::keys::{
    first_index, insert_index, keys_of, sorted_keys, find_entry, find_insert_position,
    lemma_first_index, lemma_insert_index, lemma_insert_sorted, lemma_first_index_at,
};

verus! {

/// Keys of abstract entries.
pub open spec fn entry_keys<V>(es: Seq<(Seq<char>, V)>) -> Seq<Seq<char>> {
    es.map_values(|e: (Seq<char>, V)| e.0)
}

/// The value stored under `k` in `es` (first occurrence), if any.
pub open spec fn entry_get<V>(es: Seq<(Seq<char>, V)>, k: Seq<char>) -> Option<V> {
    let i = first_index(entry_keys(es), k);
    if 0 <= i < es.len() {
        Some(es[i].1)
    } else {
        None
    }
}

/// `es` without the entry for `k`, if it has one.
pub open spec fn entry_remove<V>(es: Seq<(Seq<char>, V)>, k: Seq<char>) -> Seq<(Seq<char>, V)> {
    let i = first_index(entry_keys(es), k);
    if 0 <= i < es.len() {
        es.remove(i)
    } else {
        es
    }
}

/// `es` with `k` mapped to `v`: the value replaced where `k` is present,
/// otherwise a new entry at `k`'s place in key order.
pub open spec fn entry_put<V>(es: Seq<(Seq<char>, V)>, k: Seq<char>, v: V) -> Seq<(Seq<char>, V)> {
    let i = first_index(entry_keys(es), k);
    if 0 <= i < es.len() {
        es.update(i, (es[i].0, v))
    } else {
        es.insert(insert_index(entry_keys(es), k), (k, v))
    }
}

/// A string-keyed map with entries in key order.
pub struct StrMap<V> {
    entries: Vec<(String, V)>,
}

impl<V> View for StrMap<V> {
    type V = Seq<(Seq<char>, V)>;

    /// The entries, in key order.
    closed spec fn view(&self) -> Seq<(Seq<char>, V)> {
        self.entries@.map_values(|e: (String, V)| (e.0@, e.1))
    }
}

impl<V> StrMap<V> {
    /// Keys strictly increasing.
    #[verifier::type_invariant]
    closed spec fn keys_increasing(&self) -> bool {
        sorted_keys(keys_of(self.entries@))
    }

    /// Keys strictly increasing.
    pub open spec fn wf(&self) -> bool {
        sorted_keys(entry_keys(self@))
    }

    proof fn lemma_keys(&self)
        ensures
            entry_keys(self@) == keys_of(self.entries@),
            self@.len() == self.entries@.len(),
    {
        assert(entry_keys(self@) =~= keys_of(self.entries@));
    }

    /// An empty map.
    pub fn new() -> (m: Self)
        ensures
            m@ == Seq::<(Seq<char>, V)>::empty(),
            m.wf(),
    {
        let m = StrMap { entries: Vec::new() };
        assert(m@ =~= Seq::<(Seq<char>, V)>::empty());
        m
    }

    /// Number of entries.
    pub fn len(&self) -> (n: usize)
        ensures
            n == self@.len(),
    {
        self.entries.len()
    }

    /// The `i`-th entry in key order.
    pub fn entry(&self, i: usize) -> (r: (&String, &V))
        requires
            i < self@.len(),
        ensures
            r.0@ == self@[i as int].0,
            *r.1 == self@[i as int].1,
    {
        let e = &self.entries[i];
        (&e.0, &e.1)
    }

    /// The value under `k`.
    pub fn get(&self, k: &str) -> (r: Option<&V>)
        ensures
            match r {
                Some(v) => entry_get(self@, k@) == Some(*v),
                None => entry_get(self@, k@) is None,
            },
    {
        proof {
            self.lemma_keys();
        }
        let i = find_entry(&self.entries, k);
        if i < self.entries.len() {
            Some(&self.entries[i].1)
        } else {
            None
        }
    }

    /// Map `k` to `v` (`BTreeMap::insert`).
    pub fn insert(&mut self, k: String, v: V)
        ensures
            final(self)@ == entry_put(old(self)@, k@, v),
            final(self).wf(),
    {
        proof {
            use_type_invariant(&*self);
            self.lemma_keys();
            lemma_first_index(keys_of(self.entries@), k@);
        }
        let ghost old_view = self@;
        let mut es: Vec<(String, V)> = Vec::new();
        std::mem::swap(&mut es, &mut self.entries);
        let ghost ks = keys_of(es@);
        let i = find_entry(&es, k.as_str());
        if i < es.len() {
            let (kk, _) = es.remove(i);
            es.insert(i, (kk, v));
            assert(keys_of(es@) =~= ks);
        } else {
            let p = find_insert_position(&es, k.as_str());
            proof {
                lemma_insert_index(ks, k@);
                lemma_insert_sorted(ks, k@);
            }
            es.insert(p, (k, v));
            assert(keys_of(es@) =~= ks.insert(p as int, k@));
        }
        self.entries = es;
        assert(self@ =~= entry_put(old_view, k@, v));
        proof {
            use_type_invariant(&*self);
            self.lemma_keys();
        }
    }
}

impl<V> StrMap<V> {
    /// Take out the value under `k` (`BTreeMap::remove`).
    pub fn remove(&mut self, k: &str) -> (r: Option<V>)
        ensures
            r == entry_get(old(self)@, k@),
            final(self)@ == entry_remove(old(self)@, k@),
            final(self).wf(),
    {
        proof {
            use_type_invariant(&*self);
            self.lemma_keys();
        }
        let ghost old_view = self@;
        let mut es: Vec<(String, V)> = Vec::new();
        std::mem::swap(&mut es, &mut self.entries);
        let ghost ks = keys_of(es@);
        let i = find_entry(&es, k);
        let r = if i < es.len() {
            let (_, v) = es.remove(i);
            proof {
                assert(keys_of(es@) =~= ks.remove(i as int));
                assert forall|a: int, b: int| 0 <= a < b < keys_of(es@).len() implies crate::keys::seq_lt(
                    #[trigger] keys_of(es@)[a],
                    #[trigger] keys_of(es@)[b],
                ) by {
                    let a2 = if a < i { a } else { a + 1 };
                    let b2 = if b < i { b } else { b + 1 };
                    assert(keys_of(es@)[a] == ks[a2]);
                    assert(keys_of(es@)[b] == ks[b2]);
                }
            }
            Some(v)
        } else {
            None
        };
        self.entries = es;
        assert(self@ =~= entry_remove(old_view, k@));
        proof {
            use_type_invariant(&*self);
            self.lemma_keys();
        }
        r
    }
}

impl StrMap<String> {
    /// A copy of the map.
    pub fn copy(&self) -> (r: Self)
        ensures
            r@ == self@,
    {
        proof {
            use_type_invariant(self);
        }
        let mut out: Vec<(String, String)> = Vec::new();
        let mut i: usize = 0;
        while i < self.entries.len()
            invariant
                i <= self.entries@.len(),
                out@ =~= self.entries@.take(i as int),
            decreases self.entries@.len() - i,
        {
            let k = self.entries[i].0.clone();
            let v = self.entries[i].1.clone();
            out.push((k, v));
            i += 1;
            assert(out@ =~= self.entries@.take(i as int));
        }
        assert(out@ =~= self.entries@);
        StrMap { entries: out }
    }
}

/// Putting an absent key adds one entry; putting a present key keeps the
/// number of entries.
pub proof fn lemma_put_len<V>(es: Seq<(Seq<char>, V)>, k: Seq<char>, v: V)
    ensures
        entry_put(es, k, v).len() == if entry_get(es, k) is Some {
            es.len()
        } else {
            es.len() + 1
        },
{
    lemma_first_index(entry_keys(es), k);
    lemma_insert_index(entry_keys(es), k);
}

/// Looking up the key just put gives the value put; other keys are
/// unaffected.
pub proof fn law_put_get<V>(es: Seq<(Seq<char>, V)>, k: Seq<char>, v: V, q: Seq<char>)
    ensures
        entry_get(entry_put(es, k, v), q) == if q == k {
            Some(v)
        } else {
            entry_get(es, q)
        },
{
    let ks = entry_keys(es);
    lemma_first_index(ks, k);
    lemma_first_index(ks, q);
    let i = first_index(ks, k);
    let r = entry_put(es, k, v);
    let ks2 = entry_keys(r);
    if 0 <= i < es.len() {
        assert(ks2 =~= ks);
    } else {
        let p = insert_index(ks, k);
        lemma_insert_index(ks, k);
        assert(ks2 =~= ks.insert(p, k));
        if q == k {
            lemma_first_index_at(ks2, k, p);
        } else {
            let f = first_index(ks, q);
            if f < ks.len() {
                if f < p {
                    assert forall|m: int| 0 <= m < f implies ks2[m] != q by {
                        assert(ks2[m] == ks[m]);
                    }
                    lemma_first_index_at(ks2, q, f);
                } else {
                    assert forall|m: int| 0 <= m < f + 1 implies ks2[m] != q by {
                        if m < p {
                            assert(ks2[m] == ks[m]);
                        } else if m > p {
                            assert(ks2[m] == ks[m - 1]);
                        }
                    }
                    assert(ks2[f + 1] == ks[f]);
                    lemma_first_index_at(ks2, q, f + 1);
                }
            } else {
                assert forall|m: int| 0 <= m < ks2.len() implies ks2[m] != q by {
                    if m < p {
                        assert(ks2[m] == ks[m]);
                    } else if m > p {
                        assert(ks2[m] == ks[m - 1]);
                    }
                }
                lemma_first_index_at(ks2, q, ks2.len() as int);
            }
        }
    }
}

/// A removed key is gone, and no other key is touched.
pub proof fn law_remove_get<V>(es: Seq<(Seq<char>, V)>, k: Seq<char>, q: Seq<char>)
    requires
        sorted_keys(entry_keys(es)),
    ensures
        entry_get(entry_remove(es, k), q) == if q == k {
            None
        } else {
            entry_get(es, q)
        },
{
    let ks = entry_keys(es);
    lemma_first_index(ks, k);
    lemma_first_index(ks, q);
    crate::keys::lemma_sorted_unique(ks);
    let i = first_index(ks, k);
    if 0 <= i < es.len() {
        let es2 = es.remove(i);
        let ks2 = entry_keys(es2);
        assert(ks2 =~= ks.remove(i));
        lemma_first_index(ks2, q);
        let f = first_index(ks, q);
        if q == k {
            assert forall|m: int| 0 <= m < ks2.len() implies ks2[m] != q by {
                if m < i {
                    assert(ks2[m] == ks[m]);
                } else {
                    assert(ks2[m] == ks[m + 1]);
                }
            }
            lemma_first_index_at(ks2, q, ks2.len() as int);
        } else if f < ks.len() {
            if f < i {
                assert forall|m: int| 0 <= m < f implies ks2[m] != q by {
                    assert(ks2[m] == ks[m]);
                }
                lemma_first_index_at(ks2, q, f);
            } else {
                assert(f != i);
                assert forall|m: int| 0 <= m < f - 1 implies ks2[m] != q by {
                    if m < i {
                        assert(ks2[m] == ks[m]);
                    } else {
                        assert(ks2[m] == ks[m + 1]);
                    }
                }
                assert(ks2[f - 1] == ks[f]);
                lemma_first_index_at(ks2, q, f - 1);
            }
        } else {
            assert forall|m: int| 0 <= m < ks2.len() implies ks2[m] != q by {
                if m < i {
                    assert(ks2[m] == ks[m]);
                } else {
                    assert(ks2[m] == ks[m + 1]);
                }
            }
            lemma_first_index_at(ks2, q, ks2.len() as int);
        }
    }
}

/// Putting keeps the keys strictly increasing.
pub proof fn lemma_put_sorted<V>(es: Seq<(Seq<char>, V)>, k: Seq<char>, v: V)
    requires
        sorted_keys(entry_keys(es)),
    ensures
        sorted_keys(entry_keys(entry_put(es, k, v))),
{
    let ks = entry_keys(es);
    lemma_first_index(ks, k);
    let i = first_index(ks, k);
    if 0 <= i < es.len() {
        assert(entry_keys(entry_put(es, k, v)) =~= ks);
    } else {
        lemma_insert_index(ks, k);
        lemma_insert_sorted(ks, k);
        assert(entry_keys(entry_put(es, k, v)) =~= ks.insert(insert_index(ks, k), k));
    }
}

} // verus!
