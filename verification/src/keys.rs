//! String keys: their order (that of `String`'s `Ord`, i.e. by code point),
//! and lookups and insertion points in key sequences. The string-keyed maps
//! of the library (panels, players, JSON objects) keep their entries in
//! this order, as the `BTreeMap`s they model do.

use vstd::prelude::*;
use crate::text::chars_of;

verus! {

/// Lexicographic order of character sequences, characters compared by
/// code point.
pub open spec fn seq_lt(a: Seq<char>, b: Seq<char>) -> bool
    decreases a.len(),
{
    if a.len() == 0 {
        b.len() > 0
    } else if b.len() == 0 {
        false
    } else if a[0] < b[0] {
        true
    } else if a[0] == b[0] {
        seq_lt(a.drop_first(), b.drop_first())
    } else {
        false
    }
}

pub proof fn lemma_lt_irreflexive(a: Seq<char>)
    ensures
        !seq_lt(a, a),
    decreases a.len(),
{
    if a.len() > 0 {
        lemma_lt_irreflexive(a.drop_first());
    }
}

pub proof fn lemma_lt_total(a: Seq<char>, b: Seq<char>)
    ensures
        a != b ==> seq_lt(a, b) || seq_lt(b, a),
        !(seq_lt(a, b) && seq_lt(b, a)),
    decreases a.len(),
{
    if a.len() > 0 && b.len() > 0 {
        lemma_lt_total(a.drop_first(), b.drop_first());
        if a[0] == b[0] && a.drop_first() == b.drop_first() {
            assert(a =~= seq![a[0]] + a.drop_first());
            assert(b =~= seq![b[0]] + b.drop_first());
        }
    } else if a.len() == 0 && b.len() == 0 {
        assert(a =~= b);
    }
}

pub proof fn lemma_lt_transitive(a: Seq<char>, b: Seq<char>, c: Seq<char>)
    requires
        seq_lt(a, b),
        seq_lt(b, c),
    ensures
        seq_lt(a, c),
    decreases a.len(),
{
    if a.len() > 0 && b.len() > 0 && c.len() > 0 {
        if a[0] == b[0] && b[0] == c[0] {
            lemma_lt_transitive(a.drop_first(), b.drop_first(), c.drop_first());
        }
    }
}

/// Whether `a` comes before `b` in key order.
pub fn chars_lt(a: &Vec<char>, b: &Vec<char>) -> (r: bool)
    ensures
        r == seq_lt(a@, b@),
{
    let mut i: usize = 0;
    assert(a@.skip(0) =~= a@ && b@.skip(0) =~= b@);
    while i < a.len() && i < b.len() && a[i] == b[i]
        invariant
            i <= a.len(),
            i <= b.len(),
            seq_lt(a@, b@) == seq_lt(a@.skip(i as int), b@.skip(i as int)),
        decreases a.len() - i,
    {
        proof {
            let (x, y) = (a@.skip(i as int), b@.skip(i as int));
            assert(x.drop_first() =~= a@.skip(i + 1));
            assert(y.drop_first() =~= b@.skip(i + 1));
        }
        i += 1;
    }
    let ghost (x, y) = (a@.skip(i as int), b@.skip(i as int));
    if i == a.len() {
        assert(x.len() == 0);
        i < b.len()
    } else if i == b.len() {
        false
    } else {
        assert(x[0] == a@[i as int] && y[0] == b@[i as int]);
        a[i] < b[i]
    }
}

/// Whether string `a` comes before string `b` in key order.
pub fn str_lt(a: &str, b: &str) -> (r: bool)
    ensures
        r == seq_lt(a@, b@),
{
    let av = chars_of(a);
    let bv = chars_of(b);
    chars_lt(&av, &bv)
}

/// Keys strictly increasing: sorted and without duplicates.
pub open spec fn sorted_keys(ks: Seq<Seq<char>>) -> bool {
    forall|i: int, j: int| 0 <= i < j < ks.len() ==> seq_lt(#[trigger] ks[i], #[trigger] ks[j])
}

/// No key occurs twice.
pub open spec fn unique_keys(ks: Seq<Seq<char>>) -> bool {
    forall|i: int, j: int| 0 <= i < j < ks.len() ==> #[trigger] ks[i] != #[trigger] ks[j]
}

pub proof fn lemma_sorted_unique(ks: Seq<Seq<char>>)
    requires
        sorted_keys(ks),
    ensures
        unique_keys(ks),
{
    assert forall|i: int, j: int| 0 <= i < j < ks.len() implies #[trigger] ks[i]
        != #[trigger] ks[j] by {
        lemma_lt_irreflexive(ks[i]);
    }
}

/// Position of the first occurrence of `k` in `ks`, or `ks.len()`.
pub open spec fn first_index(ks: Seq<Seq<char>>, k: Seq<char>) -> int
    decreases ks.len(),
{
    if ks.len() == 0 {
        0
    } else if ks[0] == k {
        0
    } else {
        1 + first_index(ks.drop_first(), k)
    }
}

/// Position before the first key greater than `k`, or `ks.len()`: where
/// a new key `k` goes.
pub open spec fn insert_index(ks: Seq<Seq<char>>, k: Seq<char>) -> int
    decreases ks.len(),
{
    if ks.len() == 0 {
        0
    } else if seq_lt(k, ks[0]) {
        0
    } else {
        1 + insert_index(ks.drop_first(), k)
    }
}

pub proof fn lemma_first_index(ks: Seq<Seq<char>>, k: Seq<char>)
    ensures
        0 <= first_index(ks, k) <= ks.len(),
        first_index(ks, k) < ks.len() ==> ks[first_index(ks, k)] == k,
        forall|j: int| 0 <= j < first_index(ks, k) ==> ks[j] != k,
        first_index(ks, k) == ks.len() <==> !ks.contains(k),
    decreases ks.len(),
{
    if ks.len() > 0 && ks[0] != k {
        lemma_first_index(ks.drop_first(), k);
        assert forall|j: int| 0 <= j < first_index(ks, k) implies ks[j] != k by {
            if j > 0 {
                assert(ks[j] == ks.drop_first()[j - 1]);
            }
        }
        if ks.contains(k) {
            let j = choose|j: int| 0 <= j < ks.len() && ks[j] == k;
            assert(ks.drop_first()[j - 1] == k);
        }
    }
}

pub proof fn lemma_insert_index(ks: Seq<Seq<char>>, k: Seq<char>)
    ensures
        0 <= insert_index(ks, k) <= ks.len(),
        insert_index(ks, k) < ks.len() ==> seq_lt(k, ks[insert_index(ks, k)]),
        forall|j: int| 0 <= j < insert_index(ks, k) ==> !seq_lt(k, #[trigger] ks[j]),
    decreases ks.len(),
{
    if ks.len() > 0 && !seq_lt(k, ks[0]) {
        lemma_insert_index(ks.drop_first(), k);
        assert forall|j: int| 0 <= j < insert_index(ks, k) implies !seq_lt(k, #[trigger] ks[j]) by {
            if j > 0 {
                assert(ks[j] == ks.drop_first()[j - 1]);
            }
        }
    }
}

/// Inserting an absent key at `insert_index` keeps keys sorted.
pub proof fn lemma_insert_sorted(ks: Seq<Seq<char>>, k: Seq<char>)
    requires
        sorted_keys(ks),
        !ks.contains(k),
    ensures
        sorted_keys(ks.insert(insert_index(ks, k), k)),
{
    lemma_insert_index(ks, k);
    let p = insert_index(ks, k);
    let r = ks.insert(p, k);
    assert forall|i: int, j: int| 0 <= i < j < r.len() implies seq_lt(
        #[trigger] r[i],
        #[trigger] r[j],
    ) by {
        if j < p {
        } else if i < p && j == p {
            lemma_lt_total(ks[i], k);
            assert(ks[i] != k);
        } else if i < p && j > p {
            assert(r[j] == ks[j - 1]);
        } else if i == p {
            assert(r[j] == ks[j - 1]);
            if j - 1 > p {
                lemma_lt_transitive(k, ks[p], ks[j - 1]);
            }
        } else {
            assert(r[i] == ks[i - 1] && r[j] == ks[j - 1]);
        }
    }
}

/// The key sequence of an entry vector.
pub open spec fn keys_of<V>(es: Seq<(String, V)>) -> Seq<Seq<char>> {
    es.map_values(|e: (String, V)| e.0@)
}

/// `first_index` over the keys of `es`.
pub fn find_entry<V>(es: &Vec<(String, V)>, k: &str) -> (r: usize)
    ensures
        r as int == first_index(keys_of(es@), k@),
{
    let ghost ks = keys_of(es@);
    let mut i: usize = 0;
    assert(ks.skip(0) =~= ks);
    while i < es.len()
        invariant
            i <= es.len(),
            ks == keys_of(es@),
            first_index(ks, k@) == i + first_index(ks.skip(i as int), k@),
        decreases es.len() - i,
    {
        let same = crate::text::str_eq(es[i].0.as_str(), k);
        proof {
            assert(ks.skip(i as int)[0] == es@[i as int].0@);
            assert(ks.skip(i as int).drop_first() =~= ks.skip(i + 1));
        }
        if same {
            return i;
        }
        i += 1;
    }
    i
}

/// `insert_index` over the keys of `es`.
pub fn find_insert_position<V>(es: &Vec<(String, V)>, k: &str) -> (r: usize)
    ensures
        r as int == insert_index(keys_of(es@), k@),
{
    let ghost ks = keys_of(es@);
    let mut i: usize = 0;
    assert(ks.skip(0) =~= ks);
    while i < es.len()
        invariant
            i <= es.len(),
            ks == keys_of(es@),
            insert_index(ks, k@) == i + insert_index(ks.skip(i as int), k@),
        decreases es.len() - i,
    {
        let before = str_lt(k, es[i].0.as_str());
        proof {
            assert(ks.skip(i as int)[0] == es@[i as int].0@);
            assert(ks.skip(i as int).drop_first() =~= ks.skip(i + 1));
        }
        if before {
            return i;
        }
        i += 1;
    }
    i
}

/// `first_index` is the first position holding `k`.
pub proof fn lemma_first_index_at(ks: Seq<Seq<char>>, k: Seq<char>, j: int)
    requires
        0 <= j <= ks.len(),
        j < ks.len() ==> ks[j] == k,
        forall|m: int| 0 <= m < j ==> ks[m] != k,
    ensures
        first_index(ks, k) == j,
    decreases j,
{
    if j > 0 {
        assert forall|m: int| 0 <= m < j - 1 implies ks.drop_first()[m] != k by {
            assert(ks.drop_first()[m] == ks[m + 1]);
        }
        lemma_first_index_at(ks.drop_first(), k, j - 1);
    } else if ks.len() > 0 {
    }
}

} // verus!
