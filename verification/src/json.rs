//! Session state JSON and its deep merge.
//!
//! `JsonValue` holds what the session logic reads of a JSON document:
//! objects as key/value entries (kept in key order, as `serde_json`'s
//! default map keeps them), arrays, strings, booleans, null, and numbers
//! as their decimal text. Parsing and printing JSON text is left to
//! `serde_json` at the edges of the program.

use vstd::prelude::*;
use crate::keys::{
    first_index, insert_index, keys_of, unique_keys, sorted_keys, find_entry, find_insert_position,
    lemma_first_index, lemma_insert_index, lemma_first_index_at, lemma_insert_sorted,
};

verus! {

/// A JSON value.
pub enum JsonValue {
    Null,
    Bool(bool),
    /// The number as `serde_json` prints it.
    Number(String),
    Str(String),
    Array(Vec<JsonValue>),
    /// Entries in order; keys are expected to be strictly increasing.
    Object(Vec<(String, JsonValue)>),
}

/// Mathematical JSON value.
#[verifier::ext_equal]
pub enum JsonView {
    Null,
    Bool(bool),
    Number(Seq<char>),
    Str(Seq<char>),
    Array(Seq<JsonView>),
    Object(Seq<(Seq<char>, JsonView)>),
}

/// Entries of an object view.
pub type Entries = Seq<(Seq<char>, JsonView)>;

pub open spec fn jv(v: JsonValue) -> JsonView
    decreases v,
{
    match v {
        JsonValue::Null => JsonView::Null,
        JsonValue::Bool(b) => JsonView::Bool(b),
        JsonValue::Number(n) => JsonView::Number(n@),
        JsonValue::Str(s) => JsonView::Str(s@),
        JsonValue::Array(xs) => JsonView::Array(jv_seq(xs@)),
        JsonValue::Object(es) => JsonView::Object(jv_entries(es@)),
    }
}

pub open spec fn jv_seq(s: Seq<JsonValue>) -> Seq<JsonView>
    decreases s,
{
    if s.len() == 0 {
        seq![]
    } else {
        seq![jv(s[0])] + jv_seq(s.subrange(1, s.len() as int))
    }
}

pub open spec fn jv_entries(s: Seq<(String, JsonValue)>) -> Entries
    decreases s,
{
    if s.len() == 0 {
        seq![]
    } else {
        seq![(s[0].0@, jv(s[0].1))] + jv_entries(s.subrange(1, s.len() as int))
    }
}

impl View for JsonValue {
    type V = JsonView;

    open spec fn view(&self) -> JsonView {
        jv(*self)
    }
}

pub proof fn lemma_jv_seq(s: Seq<JsonValue>)
    ensures
        jv_seq(s).len() == s.len(),
        forall|i: int| 0 <= i < s.len() ==> #[trigger] jv_seq(s)[i] == jv(s[i]),
    decreases s.len(),
{
    if s.len() > 0 {
        let t = s.subrange(1, s.len() as int);
        lemma_jv_seq(t);
        assert forall|i: int| 0 <= i < s.len() implies #[trigger] jv_seq(s)[i] == jv(s[i]) by {
            if i > 0 {
                assert(jv_seq(s)[i] == jv_seq(t)[i - 1]);
            }
        }
    }
}

pub proof fn lemma_jv_entries(s: Seq<(String, JsonValue)>)
    ensures
        jv_entries(s).len() == s.len(),
        forall|i: int|
            0 <= i < s.len() ==> #[trigger] jv_entries(s)[i] == (s[i].0@, jv(s[i].1)),
        ekeys(jv_entries(s)) == keys_of(s),
    decreases s.len(),
{
    if s.len() > 0 {
        let t = s.subrange(1, s.len() as int);
        lemma_jv_entries(t);
        assert forall|i: int| 0 <= i < s.len() implies #[trigger] jv_entries(s)[i] == (
            s[i].0@,
            jv(s[i].1),
        ) by {
            if i > 0 {
                assert(jv_entries(s)[i] == jv_entries(t)[i - 1]);
            }
        }
    }
    assert(ekeys(jv_entries(s)) =~= keys_of(s));
}

/// Keys of object entries.
pub open spec fn ekeys(es: Entries) -> Seq<Seq<char>> {
    es.map_values(|e: (Seq<char>, JsonView)| e.0)
}

/// The value under key `k` in `es` (first occurrence), if any.
pub open spec fn lookup(es: Entries, k: Seq<char>) -> Option<JsonView> {
    let i = first_index(ekeys(es), k);
    if 0 <= i < es.len() {
        Some(es[i].1)
    } else {
        None
    }
}

/// One step of an object merge: `k` gets `v` merged into its current value,
/// or is added (at its place in key order) holding `v`.
pub open spec fn merge_entry(a: Entries, k: Seq<char>, v: JsonView, merged: JsonView) -> Entries {
    let i = first_index(ekeys(a), k);
    if 0 <= i < a.len() {
        a.update(i, (a[i].0, merged))
    } else {
        a.insert(insert_index(ekeys(a), k), (k, v))
    }
}

/// Merge `src` into `dst`: objects merge key by key; any other value
/// replaces what was there, except `null`, which never overwrites.
pub open spec fn merge(dst: JsonView, src: JsonView) -> JsonView
    decreases src,
{
    match src {
        JsonView::Null => dst,
        JsonView::Object(b) => match dst {
            JsonView::Object(a) => JsonView::Object(merge_entries(a, b)),
            _ => src,
        },
        _ => src,
    }
}

/// Merge the entries `b`, in order, into the entries `a`.
pub open spec fn merge_entries(a: Entries, b: Entries) -> Entries
    decreases b,
{
    if b.len() == 0 {
        a
    } else {
        let k = b[0].0;
        let v = b[0].1;
        let i = first_index(ekeys(a), k);
        let merged = if 0 <= i < a.len() {
            merge(a[i].1, v)
        } else {
            v
        };
        merge_entries(merge_entry(a, k, v, merged), b.subrange(1, b.len() as int))
    }
}

/// The value under `k` when `v` is an object holding `k`.
pub open spec fn field(v: JsonView, k: Seq<char>) -> Option<JsonView> {
    match v {
        JsonView::Object(es) => lookup(es, k),
        _ => None,
    }
}

// ───────────────────────── executable ─────────────────────────

/// A deep copy of `v`.
#[verifier::loop_isolation(false)]
pub fn deep_clone(v: &JsonValue) -> (r: JsonValue)
    ensures
        r@ == v@,
    decreases v,
{
    match v {
        JsonValue::Null => JsonValue::Null,
        JsonValue::Bool(b) => JsonValue::Bool(*b),
        JsonValue::Number(n) => JsonValue::Number(n.clone()),
        JsonValue::Str(s) => JsonValue::Str(s.clone()),
        JsonValue::Array(xs) => {
            let mut out: Vec<JsonValue> = Vec::new();
            let mut i: usize = 0;
            while i < xs.len()
                invariant
                    i <= xs.len(),
                    out@.len() == i,
                    forall|j: int| 0 <= j < i ==> jv(#[trigger] out@[j]) == jv(xs@[j]),
                decreases xs.len() - i,
            {
                let c = deep_clone(&xs[i]);
                out.push(c);
                i += 1;
            }
            proof {
                lemma_jv_seq(out@);
                lemma_jv_seq(xs@);
                assert(jv_seq(out@) =~= jv_seq(xs@));
            }
            JsonValue::Array(out)
        },
        JsonValue::Object(es) => {
            let mut out: Vec<(String, JsonValue)> = Vec::new();
            let mut i: usize = 0;
            while i < es.len()
                invariant
                    i <= es.len(),
                    out@.len() == i,
                    forall|j: int|
                        0 <= j < i ==> (#[trigger] out@[j]).0@ == es@[j].0@ && jv(out@[j].1)
                            == jv(es@[j].1),
                decreases es.len() - i,
            {
                let k = es[i].0.clone();
                let c = deep_clone(&es[i].1);
                out.push((k, c));
                i += 1;
            }
            proof {
                lemma_jv_entries(out@);
                lemma_jv_entries(es@);
                assert(jv_entries(out@) =~= jv_entries(es@));
            }
            JsonValue::Object(out)
        },
    }
}

/// Merge `src` into `dst` and return the result (see `merge`).
pub fn merge_value(dst: JsonValue, src: &JsonValue) -> (r: JsonValue)
    ensures
        r@ == merge(dst@, src@),
    decreases src,
{
    match src {
        JsonValue::Null => dst,
        JsonValue::Object(b) => match dst {
            JsonValue::Object(a0) => {
                let a = merge_object_entries(a0, b);
                JsonValue::Object(a)
            },
            _ => deep_clone(src),
        },
        _ => deep_clone(src),
    }
}

#[verifier::loop_isolation(false)]
fn merge_object_entries(a0: Vec<(String, JsonValue)>, b: &Vec<(String, JsonValue)>) -> (r: Vec<
    (String, JsonValue),
>)
    ensures
        jv_entries(r@) == merge_entries(jv_entries(a0@), jv_entries(b@)),
    decreases b,
{
    let mut a = a0;
    let mut j: usize = 0;
    proof {
        lemma_jv_entries(b@);
        assert(jv_entries(b@).subrange(0, b@.len() as int) =~= jv_entries(b@));
    }
    while j < b.len()
        invariant
            j <= b.len(),
            jv_entries(b@).len() == b@.len(),
            forall|i: int|
                0 <= i < b@.len() ==> #[trigger] jv_entries(b@)[i] == (b@[i].0@, jv(b@[i].1)),
            merge_entries(jv_entries(a@), jv_entries(b@).subrange(j as int, b@.len() as int))
                == merge_entries(jv_entries(a0@), jv_entries(b@)),
        decreases b.len() - j,
    {
        let ghost ea = jv_entries(a@);
        let ghost eb = jv_entries(b@).subrange(j as int, b@.len() as int);
        proof {
            lemma_jv_entries(a@);
            assert(eb[0] == (b@[j as int].0@, jv(b@[j as int].1)));
            assert(eb.subrange(1, eb.len() as int) =~= jv_entries(b@).subrange(
                j + 1,
                b@.len() as int,
            ));
        }
        let i = find_entry(&a, b[j].0.as_str());
        if i < a.len() {
            let (key, val) = a.remove(i);
            let nv = merge_value(val, &b[j].1);
            a.insert(i, (key, nv));
            proof {
                lemma_jv_entries(a@);
                assert(jv_entries(a@) =~= merge_entry(
                    ea,
                    b@[j as int].0@,
                    jv(b@[j as int].1),
                    merge(ea[i as int].1, jv(b@[j as int].1)),
                ));
            }
        } else {
            let p = find_insert_position(&a, b[j].0.as_str());
            proof {
                lemma_insert_index(keys_of(a@), b@[j as int].0@);
            }
            let k = b[j].0.clone();
            let c = deep_clone(&b[j].1);
            a.insert(p, (k, c));
            proof {
                lemma_jv_entries(a@);
                assert(jv_entries(a@) =~= merge_entry(
                    ea,
                    b@[j as int].0@,
                    jv(b@[j as int].1),
                    jv(b@[j as int].1),
                ));
            }
        }
        j += 1;
    }
    proof {
        assert(jv_entries(b@).subrange(b@.len() as int, b@.len() as int) =~= Seq::<
            (Seq<char>, JsonView),
        >::empty());
    }
    a
}

/// Merge `src` into `*dst` in place (see `merge`).
pub fn deep_merge(dst: &mut JsonValue, src: &JsonValue)
    ensures
        final(dst)@ == merge(old(dst)@, src@),
{
    let mut d = JsonValue::Null;
    std::mem::swap(&mut d, dst);
    *dst = merge_value(d, src);
}

/// The string under key `k` when `v` is an object holding a string there.
pub open spec fn str_field(v: JsonView, k: Seq<char>) -> Option<Seq<char>> {
    match field(v, k) {
        Some(JsonView::Str(s)) => Some(s),
        _ => None,
    }
}

/// `v.get(k).and_then(|x| x.as_str())`, as an owned string.
pub fn get_str(v: &JsonValue, k: &str) -> (r: Option<String>)
    ensures
        r matches Some(s) ==> str_field(v@, k@) == Some(s@),
        r is None ==> str_field(v@, k@) is None,
{
    match v {
        JsonValue::Object(es) => {
            proof {
                lemma_jv_entries(es@);
            }
            let i = find_entry(es, k);
            if i < es.len() {
                match &es[i].1 {
                    JsonValue::Str(s) => Some(s.clone()),
                    _ => None,
                }
            } else {
                None
            }
        },
        _ => None,
    }
}

/// `v.get(k)`: the value under key `k` when `v` is an object holding it.
pub fn get_field<'a>(v: &'a JsonValue, k: &str) -> (r: Option<&'a JsonValue>)
    ensures
        r matches Some(x) ==> field(v@, k@) == Some(x@),
        r is None ==> field(v@, k@) is None,
{
    match v {
        JsonValue::Object(es) => {
            proof {
                lemma_jv_entries(es@);
            }
            let i = find_entry(es, k);
            if i < es.len() {
                Some(&es[i].1)
            } else {
                None
            }
        },
        _ => None,
    }
}

/// Put `v` under `k` in object entries, as `serde_json::Map::insert` does:
/// an existing key gets the new value in place, a new key goes to its place
/// in key order.
pub fn object_insert(es: &mut Vec<(String, JsonValue)>, k: String, v: JsonValue)
    ensures
        jv_entries(final(es)@) == merge_entry(jv_entries(old(es)@), k@, v@, v@),
{
    let ghost ea = jv_entries(es@);
    proof {
        lemma_jv_entries(es@);
        lemma_first_index(keys_of(es@), k@);
    }
    let i = find_entry(es, k.as_str());
    if i < es.len() {
        let _old = es.remove(i);
        es.insert(i, (k, v));
        proof {
            lemma_jv_entries(es@);
            assert(jv_entries(es@) =~= merge_entry(ea, k@, v@, v@));
        }
    } else {
        let p = find_insert_position(es, k.as_str());
        proof {
            lemma_insert_index(keys_of(es@), k@);
        }
        es.insert(p, (k, v));
        proof {
            lemma_jv_entries(es@);
            assert(jv_entries(es@) =~= merge_entry(ea, k@, v@, v@));
        }
    }
}

// ───────────────────────── laws ─────────────────────────

/// Merging `null` changes nothing: a state pass that returns nothing for a
/// value keeps the value.
pub proof fn law_null_never_overwrites(dst: JsonView)
    ensures
        merge(dst, JsonView::Null) == dst,
{
}

/// A value that is neither `null` nor an object merged onto an object
/// replaces the destination; so does any non-null value merged onto a
/// non-object.
pub proof fn law_non_objects_replace(dst: JsonView, src: JsonView)
    requires
        !(src is Null),
        !(src is Object && dst is Object),
    ensures
        merge(dst, src) == src,
{
}

proof fn lemma_merge_entry_lookup(a: Entries, k0: Seq<char>, v0: JsonView, k: Seq<char>)
    ensures
        ({
            let i = first_index(ekeys(a), k0);
            let merged = if 0 <= i < a.len() {
                merge(a[i].1, v0)
            } else {
                v0
            };
            lookup(merge_entry(a, k0, v0, merged), k) == if k == k0 {
                Some(merged)
            } else {
                lookup(a, k)
            }
        }),
{
    let ks = ekeys(a);
    lemma_first_index(ks, k0);
    lemma_first_index(ks, k);
    let i = first_index(ks, k0);
    let merged = if 0 <= i < a.len() {
        merge(a[i].1, v0)
    } else {
        v0
    };
    let a2 = merge_entry(a, k0, v0, merged);
    let ks2 = ekeys(a2);
    if 0 <= i < a.len() {
        assert(ks2 =~= ks);
    } else {
        let p = insert_index(ks, k0);
        lemma_insert_index(ks, k0);
        assert(ks2 =~= ks.insert(p, k0));
        if k == k0 {
            lemma_first_index_at(ks2, k0, p);
        } else {
            let f = first_index(ks, k);
            if f < ks.len() {
                if f < p {
                    assert forall|m: int| 0 <= m < f implies ks2[m] != k by {
                        assert(ks2[m] == ks[m]);
                    }
                    lemma_first_index_at(ks2, k, f);
                } else {
                    assert forall|m: int| 0 <= m < f + 1 implies ks2[m] != k by {
                        if m < p {
                            assert(ks2[m] == ks[m]);
                        } else if m > p {
                            assert(ks2[m] == ks[m - 1]);
                        }
                    }
                    assert(ks2[f + 1] == ks[f]);
                    lemma_first_index_at(ks2, k, f + 1);
                    assert(a2[f + 1] == a[f]);
                }
            } else {
                assert forall|m: int| 0 <= m < ks2.len() implies ks2[m] != k by {
                    if m < p {
                        assert(ks2[m] == ks[m]);
                    } else if m > p {
                        assert(ks2[m] == ks[m - 1]);
                    }
                }
                lemma_first_index_at(ks2, k, ks2.len() as int);
            }
        }
    }
}

/// What `object_insert` puts under a key is what a lookup of that key then
/// gives back.
pub proof fn law_insert_then_lookup(a: Entries, k: Seq<char>, v: JsonView)
    ensures
        lookup(merge_entry(a, k, v, v), k) == Some(v),
{
    let ks = ekeys(a);
    lemma_first_index(ks, k);
    let i = first_index(ks, k);
    let a2 = merge_entry(a, k, v, v);
    let ks2 = ekeys(a2);
    if 0 <= i < a.len() {
        assert(ks2 =~= ks);
        lemma_first_index(ks2, k);
    } else {
        let p = insert_index(ks, k);
        lemma_insert_index(ks, k);
        assert(ks2 =~= ks.insert(p, k));
        assert forall|m: int| 0 <= m < p implies ks2[m] != k by {
            assert(ks2[m] == ks[m]);
        }
        lemma_first_index_at(ks2, k, p);
    }
}

/// The value under `k` in entries `es`, assuming `k` is a key there.
pub open spec fn value_at(es: Entries, k: Seq<char>) -> JsonView {
    es[first_index(ekeys(es), k)].1
}

proof fn lemma_merge_entries_lookup(a: Entries, b: Entries, k: Seq<char>)
    requires
        unique_keys(ekeys(b)),
    ensures
        lookup(merge_entries(a, b), k) == if ekeys(b).contains(k) {
            Some(
                merge(
                    match lookup(a, k) {
                        Some(x) => x,
                        None => JsonView::Null,
                    },
                    value_at(b, k),
                ),
            )
        } else {
            lookup(a, k)
        },
    decreases b.len(),
{
    if b.len() > 0 {
        let k0 = b[0].0;
        let v0 = b[0].1;
        let rest = b.subrange(1, b.len() as int);
        let i = first_index(ekeys(a), k0);
        let merged = if 0 <= i < a.len() {
            merge(a[i].1, v0)
        } else {
            v0
        };
        let a2 = merge_entry(a, k0, v0, merged);
        assert(ekeys(rest) =~= ekeys(b).subrange(1, b.len() as int));
        assert(unique_keys(ekeys(rest)));
        lemma_merge_entries_lookup(a2, rest, k);
        lemma_merge_entry_lookup(a, k0, v0, k);
        lemma_first_index(ekeys(b), k);
        lemma_first_index(ekeys(rest), k);
        if k == k0 {
            assert(ekeys(b)[0] == k0);
            assert(!ekeys(rest).contains(k)) by {
                if ekeys(rest).contains(k) {
                    let m = choose|m: int| 0 <= m < ekeys(rest).len() && ekeys(rest)[m] == k;
                    assert(ekeys(b)[m + 1] == k);
                }
            }
            lemma_first_index(ekeys(a), k0);
            lemma_first_index_at(ekeys(b), k, 0);
        } else {
            assert(ekeys(b).contains(k) == ekeys(rest).contains(k)) by {
                if ekeys(b).contains(k) {
                    let m = choose|m: int| 0 <= m < ekeys(b).len() && ekeys(b)[m] == k;
                    assert(m > 0);
                    assert(ekeys(rest)[m - 1] == k);
                }
                if ekeys(rest).contains(k) {
                    let m = choose|m: int| 0 <= m < ekeys(rest).len() && ekeys(rest)[m] == k;
                    assert(ekeys(b)[m + 1] == k);
                }
            }
            if ekeys(b).contains(k) {
                let f = first_index(ekeys(rest), k);
                assert forall|m: int| 0 <= m < f + 1 implies ekeys(b)[m] != k by {
                    if m > 0 {
                        assert(ekeys(b)[m] == ekeys(rest)[m - 1]);
                    }
                }
                lemma_first_index_at(ekeys(b), k, f + 1);
            }
        }
    }
}

/// Objects merge field by field: after merging object `src` (with distinct
/// keys) into object `dst`, a key that `src` holds maps to its `src` value
/// merged into what `dst` held there (`null` when `dst` lacked it), and
/// every other key keeps its `dst` value.
pub proof fn law_objects_merge_field_by_field(a: Entries, b: Entries, k: Seq<char>)
    requires
        unique_keys(ekeys(b)),
    ensures
        field(merge(JsonView::Object(a), JsonView::Object(b)), k) == if ekeys(b).contains(k) {
            Some(
                merge(
                    match lookup(a, k) {
                        Some(x) => x,
                        None => JsonView::Null,
                    },
                    value_at(b, k),
                ),
            )
        } else {
            lookup(a, k)
        },
{
    lemma_merge_entries_lookup(a, b, k);
}

/// A well-formed JSON value: every object's keys strictly increasing (as
/// `serde_json`'s default map keeps them), all the way down.
pub open spec fn json_wf(v: JsonView) -> bool
    decreases v,
{
    match v {
        JsonView::Array(xs) => forall|i: int| 0 <= i < xs.len() ==> json_wf(#[trigger] xs[i]),
        JsonView::Object(es) => sorted_keys(ekeys(es)) && forall|i: int|
            0 <= i < es.len() ==> json_wf(#[trigger] es[i].1),
        _ => true,
    }
}

/// No object repeats a key, all the way down (true of every value
/// `serde_json` produces, whose maps hold each key once).
pub open spec fn json_keys_unique(v: JsonView) -> bool
    decreases v,
{
    match v {
        JsonView::Array(xs) => forall|i: int|
            0 <= i < xs.len() ==> json_keys_unique(#[trigger] xs[i]),
        JsonView::Object(es) => unique_keys(ekeys(es)) && forall|i: int|
            0 <= i < es.len() ==> json_keys_unique(#[trigger] es[i].1),
        _ => true,
    }
}

/// Entries that could make a well-formed object.
pub open spec fn entries_wf(es: Entries) -> bool {
    sorted_keys(ekeys(es)) && forall|i: int| 0 <= i < es.len() ==> json_wf(#[trigger] es[i].1)
}

proof fn lemma_merge_entry_wf(a: Entries, k: Seq<char>, v: JsonView, merged: JsonView)
    requires
        entries_wf(a),
        json_wf(v),
        json_wf(merged),
    ensures
        entries_wf(merge_entry(a, k, v, merged)),
{
    let ks = ekeys(a);
    lemma_first_index(ks, k);
    let i = first_index(ks, k);
    let r = merge_entry(a, k, v, merged);
    if 0 <= i < a.len() {
        assert(ekeys(r) =~= ks);
        assert forall|j: int| 0 <= j < r.len() implies json_wf(#[trigger] r[j].1) by {
            if j != i {
                assert(r[j] == a[j]);
            }
        }
    } else {
        let p = insert_index(ks, k);
        lemma_insert_index(ks, k);
        lemma_insert_sorted(ks, k);
        assert(ekeys(r) =~= ks.insert(p, k));
        assert forall|j: int| 0 <= j < r.len() implies json_wf(#[trigger] r[j].1) by {
            if j < p {
                assert(r[j] == a[j]);
            } else if j > p {
                assert(r[j] == a[j - 1]);
            }
        }
    }
}

proof fn lemma_merge_wf(dst: JsonView, src: JsonView)
    requires
        json_wf(dst),
        json_wf(src),
    ensures
        json_wf(merge(dst, src)),
    decreases src,
{
    match src {
        JsonView::Object(b) => match dst {
            JsonView::Object(a) => {
                lemma_merge_entries_wf(a, b);
            },
            _ => {},
        },
        _ => {},
    }
}

proof fn lemma_merge_entries_wf(a: Entries, b: Entries)
    requires
        entries_wf(a),
        forall|i: int| 0 <= i < b.len() ==> json_wf(#[trigger] b[i].1),
    ensures
        entries_wf(merge_entries(a, b)),
    decreases b,
{
    if b.len() > 0 {
        let k = b[0].0;
        let v = b[0].1;
        let i = first_index(ekeys(a), k);
        lemma_first_index(ekeys(a), k);
        assert(json_wf(v));
        let merged = if 0 <= i < a.len() {
            assert(json_wf(a[i].1));
            lemma_merge_wf(a[i].1, v);
            merge(a[i].1, v)
        } else {
            v
        };
        lemma_merge_entry_wf(a, k, v, merged);
        let rest = b.subrange(1, b.len() as int);
        assert forall|j: int| 0 <= j < rest.len() implies json_wf(#[trigger] rest[j].1) by {
            assert(rest[j] == b[j + 1]);
        }
        lemma_merge_entries_wf(merge_entry(a, k, v, merged), rest);
    }
}

/// Merging keeps JSON well formed: merging a well-formed value into a
/// well-formed state gives a well-formed state, so every object in the
/// state keeps its keys in order and without repeats.
pub proof fn law_merge_keeps_wf(dst: JsonView, src: JsonView)
    requires
        json_wf(dst),
        json_wf(src),
    ensures
        json_wf(merge(dst, src)),
{
    lemma_merge_wf(dst, src);
}

proof fn lemma_merge_entries_fixed(c: Entries, b: Entries)
    requires
        unique_keys(ekeys(b)),
        forall|k: Seq<char>|
            #[trigger] ekeys(b).contains(k) ==> ekeys(c).contains(k) && merge(
                value_at(c, k),
                value_at(b, k),
            ) == value_at(c, k),
    ensures
        merge_entries(c, b) == c,
    decreases b.len(),
{
    if b.len() > 0 {
        let k0 = b[0].0;
        let v0 = b[0].1;
        assert(ekeys(b)[0] == k0);
        assert(ekeys(b).contains(k0));
        lemma_first_index(ekeys(c), k0);
        lemma_first_index_at(ekeys(b), k0, 0);
        let i = first_index(ekeys(c), k0);
        assert(merge(c[i].1, v0) == c[i].1);
        assert(merge_entry(c, k0, v0, merge(c[i].1, v0)) =~= c);
        let rest = b.subrange(1, b.len() as int);
        assert(ekeys(rest) =~= ekeys(b).subrange(1, b.len() as int));
        assert forall|k: Seq<char>| #[trigger] ekeys(rest).contains(k) implies ekeys(c).contains(k)
            && merge(value_at(c, k), value_at(rest, k)) == value_at(c, k) by {
            let m = choose|m: int| 0 <= m < ekeys(rest).len() && ekeys(rest)[m] == k;
            assert(ekeys(b)[m + 1] == k);
            assert(ekeys(b).contains(k));
            assert(k != k0);
            lemma_first_index(ekeys(rest), k);
            let f = first_index(ekeys(rest), k);
            assert forall|j: int| 0 <= j < f + 1 implies ekeys(b)[j] != k by {
                if j > 0 {
                    assert(ekeys(b)[j] == ekeys(rest)[j - 1]);
                }
            }
            lemma_first_index_at(ekeys(b), k, f + 1);
            assert(rest[f] == b[f + 1]);
        }
        lemma_merge_entries_fixed(c, rest);
    }
}

proof fn lemma_merge_idem(d: JsonView, s: JsonView)
    requires
        json_keys_unique(s),
    ensures
        merge(merge(d, s), s) == merge(d, s),
    decreases s,
{
    match s {
        JsonView::Object(b) => {
            match d {
                JsonView::Object(a) => {
                    let m = merge_entries(a, b);
                    assert forall|k: Seq<char>| #[trigger] ekeys(b).contains(k) implies ekeys(
                        m,
                    ).contains(k) && merge(value_at(m, k), value_at(b, k)) == value_at(m, k) by {
                        law_objects_merge_field_by_field(a, b, k);
                        lemma_first_index(ekeys(m), k);
                        lemma_first_index(ekeys(b), k);
                        let j = first_index(ekeys(b), k);
                        let x = match lookup(a, k) {
                            Some(x) => x,
                            None => JsonView::Null,
                        };
                        lemma_merge_idem(x, b[j].1);
                    }
                    lemma_merge_entries_fixed(m, b);
                },
                _ => {
                    assert forall|k: Seq<char>| #[trigger] ekeys(b).contains(k) implies ekeys(
                        b,
                    ).contains(k) && merge(value_at(b, k), value_at(b, k)) == value_at(b, k) by {
                        lemma_first_index(ekeys(b), k);
                        let j = first_index(ekeys(b), k);
                        lemma_merge_idem(JsonView::Null, b[j].1);
                    }
                    lemma_merge_entries_fixed(b, b);
                },
            }
        },
        _ => {},
    }
}

/// Merging is idempotent: merging the same value a second time changes
/// nothing, so a repeated state pass leaves the state as one pass did. It
/// holds whenever no object in `src` repeats a key; an object that does
/// (`{"k":1,"k":2}` merged onto `7`) gives a different result the second
/// time.
pub proof fn law_merge_idempotent(dst: JsonView, src: JsonView)
    requires
        json_keys_unique(src),
    ensures
        merge(merge(dst, src), src) == merge(dst, src),
{
    lemma_merge_idem(dst, src);
}

} // verus!
