//! Character-level text utilities shared by the rest of the library.
//!
//! Strings are reasoned about through their character sequence (`s@`). The
//! functions here have the meaning of the like-named `str` methods of std:
//! whitespace is Unicode `White_Space`, patterns match left to right without
//! overlapping, and lines end at `\n` or `\r\n`.

use vstd::prelude::*;

verus! {

broadcast use vstd::seq_lib::group_seq_properties;

// ───────────────────────── conversions ─────────────────────────

/// The characters of `s`, as a vector.
pub(crate) fn chars_of(s: &str) -> (v: Vec<char>)
    ensures
        v@ == s@,
{
    broadcast use vstd::string::axiom_spec_iter;
    let mut v: Vec<char> = Vec::new();
    for c in it: s.chars()
        invariant
            v@ == it.seq().take(it.index() as int),
            it.seq() == s@,
    {
        v.push(c);
    }
    v
}

/// A string holding exactly the characters of `v`: collects them with
/// std's `FromIterator<&char>` for `String`. Trusted: the contract claims
/// the string's characters are those of `v`, in order.
#[verifier::external_body]
pub(crate) fn string_from_chars(v: &[char]) -> (s: String)
    ensures
        s@ == v@,
{
    v.iter().collect()
}

/// Append one character to a string with std's `String::push`. Trusted:
/// the contract claims `c` is added at the end and nothing else changes.
#[verifier::external_body]
pub(crate) fn push_char(s: &mut String, c: char)
    ensures
        final(s)@ == old(s)@.push(c),
{
    s.push(c)
}

/// A fresh string copied from `s`.
pub fn to_string(s: &str) -> (r: String)
    ensures
        r@ == s@,
{
    s.to_owned()
}

/// Whether two character vectors are equal.
pub fn chars_eq(a: &Vec<char>, b: &Vec<char>) -> (r: bool)
    ensures
        r == (a@ == b@),
{
    if a.len() != b.len() {
        return false;
    }
    let mut i: usize = 0;
    while i < a.len()
        invariant
            a.len() == b.len(),
            i <= a.len(),
            forall|j: int| 0 <= j < i ==> a@[j] == b@[j],
        decreases a.len() - i,
    {
        if a[i] != b[i] {
            return false;
        }
        i += 1;
    }
    assert(a@ =~= b@);
    true
}

/// Whether two strings hold the same characters.
pub fn str_eq(a: &str, b: &str) -> (r: bool)
    ensures
        r == (a@ == b@),
{
    let av = chars_of(a);
    let bv = chars_of(b);
    chars_eq(&av, &bv)
}

// ───────────────────────── character classes ─────────────────────────

/// Whether `c` is an ASCII letter or digit.
pub open spec fn is_ascii_alnum(c: char) -> bool {
    ('a' <= c && c <= 'z') || ('A' <= c && c <= 'Z') || ('0' <= c && c <= '9')
}

/// `char::is_ascii_alphanumeric`.
pub fn ascii_alnum(c: char) -> (b: bool)
    ensures
        b == is_ascii_alnum(c),
{
    ('a' <= c && c <= 'z') || ('A' <= c && c <= 'Z') || ('0' <= c && c <= '9')
}

/// The ASCII lower-case form of `c` (other characters are unchanged).
pub open spec fn ascii_lower(c: char) -> char {
    if 'A' <= c && c <= 'Z' {
        ((c as u32) + 32) as char
    } else {
        c
    }
}

/// `char::to_ascii_lowercase`.
pub fn to_ascii_lower(c: char) -> (r: char)
    ensures
        r == ascii_lower(c),
{
    if 'A' <= c && c <= 'Z' {
        let u: u32 = (c as u32) + 32;
        assert(0x61 <= u <= 0x7a);
        u as u8 as char
    } else {
        c
    }
}

/// Unicode `White_Space`, the property `char::is_whitespace` tests.
pub open spec fn is_ws(c: char) -> bool {
    let u = c as u32;
    (0x9 <= u && u <= 0xd) || u == 0x20 || u == 0x85 || u == 0xa0 || u == 0x1680 || (0x2000
        <= u && u <= 0x200a) || u == 0x2028 || u == 0x2029 || u == 0x202f || u == 0x205f || u
        == 0x3000
}

/// `char::is_whitespace`.
pub fn whitespace(c: char) -> (b: bool)
    ensures
        b == is_ws(c),
{
    let u = c as u32;
    (0x9 <= u && u <= 0xd) || u == 0x20 || u == 0x85 || u == 0xa0 || u == 0x1680 || (0x2000
        <= u && u <= 0x200a) || u == 0x2028 || u == 0x2029 || u == 0x202f || u == 0x205f || u
        == 0x3000
}

// ───────────────────────── sequence specs ─────────────────────────

/// Every character mapped through `ascii_lower`.
pub open spec fn lower_seq(s: Seq<char>) -> Seq<char> {
    s.map_values(|c: char| ascii_lower(c))
}

/// `s` without its leading whitespace.
pub open spec fn trim_start(s: Seq<char>) -> Seq<char>
    decreases s.len(),
{
    if s.len() > 0 && is_ws(s[0]) {
        trim_start(s.drop_first())
    } else {
        s
    }
}

/// `s` without its trailing whitespace.
pub open spec fn trim_end(s: Seq<char>) -> Seq<char>
    decreases s.len(),
{
    if s.len() > 0 && is_ws(s.last()) {
        trim_end(s.drop_last())
    } else {
        s
    }
}

/// `s` without leading and trailing whitespace (`str::trim`).
pub open spec fn trim(s: Seq<char>) -> Seq<char> {
    trim_end(trim_start(s))
}

/// Whether `p` occurs in `s` at position `i`.
pub open spec fn occurs_at(s: Seq<char>, p: Seq<char>, i: int) -> bool {
    0 <= i && i + p.len() <= s.len() && s.subrange(i, i + p.len()) == p
}

/// Whether `p` occurs somewhere in `s` (`str::contains`).
pub open spec fn contains(s: Seq<char>, p: Seq<char>) -> bool {
    exists|i: int| occurs_at(s, p, i)
}

/// `s` with every leading repetition of the non-empty `p` removed
/// (`str::trim_start_matches`).
pub open spec fn strip_prefixes(s: Seq<char>, p: Seq<char>) -> Seq<char>
    decreases s.len(),
{
    if p.len() > 0 && occurs_at(s, p, 0) {
        strip_prefixes(s.skip(p.len() as int), p)
    } else {
        s
    }
}

/// `s` with every trailing repetition of the non-empty `p` removed
/// (`str::trim_end_matches`).
pub open spec fn strip_suffixes(s: Seq<char>, p: Seq<char>) -> Seq<char>
    decreases s.len(),
{
    if p.len() > 0 && occurs_at(s, p, s.len() - p.len()) {
        strip_suffixes(s.take(s.len() - p.len()), p)
    } else {
        s
    }
}

/// `s` with each non-overlapping occurrence of the non-empty `from`, found
/// left to right, replaced by `to` (`str::replace`).
pub open spec fn replace_all(s: Seq<char>, from: Seq<char>, to: Seq<char>) -> Seq<char>
    decreases s.len(),
{
    if from.len() == 0 || s.len() < from.len() {
        s
    } else if occurs_at(s, from, 0) {
        to + replace_all(s.skip(from.len() as int), from, to)
    } else {
        seq![s[0]] + replace_all(s.drop_first(), from, to)
    }
}

// ───────────────────────── executable helpers ─────────────────────────

/// Whether `p` occurs in `s` at position `i`.
pub fn matches_at(s: &Vec<char>, p: &Vec<char>, i: usize) -> (b: bool)
    ensures
        b == occurs_at(s@, p@, i as int),
{
    if i > s.len() || p.len() > s.len() - i {
        return false;
    }
    let mut k: usize = 0;
    while k < p.len()
        invariant
            i + p.len() <= s.len(),
            k <= p.len(),
            forall|j: int| 0 <= j < k ==> s@[i + j] == p@[j],
        decreases p.len() - k,
    {
        if s[i + k] != p[k] {
            assert(s@.subrange(i as int, i + p.len())[k as int] != p@[k as int]);
            return false;
        }
        k += 1;
    }
    assert(s@.subrange(i as int, i + p.len()) =~= p@);
    true
}

/// `lower_seq` of `s`.
pub fn lowercase_chars(s: &Vec<char>) -> (r: Vec<char>)
    ensures
        r@ == lower_seq(s@),
{
    let mut r: Vec<char> = Vec::new();
    let mut i: usize = 0;
    while i < s.len()
        invariant
            i <= s.len(),
            r@ =~= lower_seq(s@.take(i as int)),
        decreases s.len() - i,
    {
        let c = to_ascii_lower(s[i]);
        r.push(c);
        i += 1;
        assert(lower_seq(s@.take(i as int)) =~= lower_seq(s@.take(i - 1)).push(c));
    }
    assert(s@.take(s.len() as int) =~= s@);
    r
}

/// Whether `p` occurs anywhere in `s`.
pub fn contains_chars(s: &Vec<char>, p: &Vec<char>) -> (b: bool)
    ensures
        b == contains(s@, p@),
{
    if p.len() > s.len() {
        assert(!contains(s@, p@));
        return false;
    }
    if p.len() == 0 {
        assert(occurs_at(s@, p@, 0));
        return true;
    }
    let mut i: usize = 0;
    while i <= s.len() - p.len()
        invariant
            0 < p.len() <= s.len(),
            i <= s.len() - p.len() + 1,
            forall|j: int| 0 <= j < i ==> !occurs_at(s@, p@, j),
        decreases s.len() - i,
    {
        if matches_at(s, p, i) {
            return true;
        }
        i += 1;
    }
    assert forall|j: int| !occurs_at(s@, p@, j) by {
        if 0 <= j && j + p.len() <= s.len() {
            assert(j < i);
        }
    }
    false
}

/// Index just past the leading whitespace of `s[from..to]`.
pub proof fn lemma_trim_start_skip(s: Seq<char>, i: int)
    requires
        0 <= i < s.len(),
        is_ws(s[i]),
    ensures
        trim_start(s.skip(i)) == trim_start(s.skip(i + 1)),
{
    assert(s.skip(i).drop_first() =~= s.skip(i + 1));
}

pub proof fn lemma_trim_end_take(s: Seq<char>, j: int)
    requires
        0 < j <= s.len(),
        is_ws(s[j - 1]),
    ensures
        trim_end(s.take(j)) == trim_end(s.take(j - 1)),
{
    assert(s.take(j).drop_last() =~= s.take(j - 1));
}

/// Bounds `(a, b)` with `s[a..b] == trim(s)`.
pub fn trim_bounds(s: &Vec<char>) -> (r: (usize, usize))
    ensures
        r.0 <= r.1 <= s.len(),
        s@.subrange(r.0 as int, r.1 as int) == trim(s@),
{
    let mut a: usize = 0;
    while a < s.len() && whitespace(s[a])
        invariant
            a <= s.len(),
            trim_start(s@) == trim_start(s@.skip(a as int)),
        decreases s.len() - a,
    {
        proof {
            lemma_trim_start_skip(s@, a as int);
        }
        a += 1;
    }
    let ghost t = s@.skip(a as int);
    assert(trim_start(t) == t);
    let mut b: usize = s.len();
    while b > a && whitespace(s[b - 1])
        invariant
            a <= b <= s.len(),
            t == s@.skip(a as int),
            trim_end(t) == trim_end(t.take(b - a)),
        decreases b,
    {
        proof {
            lemma_trim_end_take(t, (b - a) as int);
        }
        b -= 1;
    }
    assert(trim_end(t.take(b - a)) == t.take(b - a));
    assert(t.take(b - a) =~= s@.subrange(a as int, b as int));
    (a, b)
}

/// `trim` of a character vector, as a new vector.
pub fn trim_chars(s: &Vec<char>) -> (r: Vec<char>)
    ensures
        r@ == trim(s@),
{
    let (a, b) = trim_bounds(s);
    slice_chars(s, a, b)
}

/// `s[a..b]` as a new vector.
pub fn slice_chars(s: &Vec<char>, a: usize, b: usize) -> (r: Vec<char>)
    requires
        a <= b <= s.len(),
    ensures
        r@ == s@.subrange(a as int, b as int),
{
    let mut r: Vec<char> = Vec::new();
    let mut i: usize = a;
    while i < b
        invariant
            a <= i <= b <= s.len(),
            r@ =~= s@.subrange(a as int, i as int),
        decreases b - i,
    {
        r.push(s[i]);
        i += 1;
    }
    r
}

/// `str::trim`, returning an owned string.
pub fn trimmed(s: &str) -> (r: String)
    ensures
        r@ == trim(s@),
{
    let v = chars_of(s);
    let t = trim_chars(&v);
    string_from_chars(t.as_slice())
}

/// `strip_prefixes(s, p)` as bounds: `s[k..]` is the result.
pub fn strip_prefixes_index(s: &Vec<char>, p: &Vec<char>) -> (k: usize)
    ensures
        k <= s.len(),
        s@.skip(k as int) == strip_prefixes(s@, p@),
{
    let mut k: usize = 0;
    if p.len() == 0 {
        return 0;
    }
    while k <= s.len() && matches_at(s, p, k)
        invariant
            p.len() > 0,
            k <= s.len(),
            strip_prefixes(s@, p@) == strip_prefixes(s@.skip(k as int), p@),
        decreases s.len() - k,
    {
        let ghost t = s@.skip(k as int);
        assert(t.subrange(0, p.len() as int) =~= s@.subrange(k as int, k + p.len()));
        assert(t.skip(p.len() as int) =~= s@.skip(k + p.len()));
        k += p.len();
    }
    let ghost t = s@.skip(k as int);
    assert(!occurs_at(t, p@, 0)) by {
        if occurs_at(t, p@, 0) {
            assert(t.subrange(0, p.len() as int) =~= s@.subrange(k as int, k + p.len()));
        }
    }
    k
}

/// `strip_suffixes(s[..end], p)` as a bound: `s[..k]` is the result.
pub fn strip_suffixes_index(s: &Vec<char>, end: usize, p: &Vec<char>) -> (k: usize)
    requires
        end <= s.len(),
    ensures
        k <= end,
        s@.take(k as int) == strip_suffixes(s@.take(end as int), p@),
{
    let mut k: usize = end;
    if p.len() == 0 {
        return end;
    }
    while k >= p.len() && matches_at(s, p, k - p.len())
        invariant
            p.len() > 0,
            k <= end <= s.len(),
            strip_suffixes(s@.take(end as int), p@) == strip_suffixes(s@.take(k as int), p@),
        decreases k,
    {
        let ghost t = s@.take(k as int);
        assert(t.subrange(k - p.len(), k as int) =~= s@.subrange(k - p.len(), k as int));
        assert(t.take(k - p.len()) =~= s@.take(k - p.len()));
        k -= p.len();
    }
    let ghost t = s@.take(k as int);
    assert(!occurs_at(t, p@, t.len() - p.len())) by {
        if occurs_at(t, p@, t.len() - p.len()) {
            assert(t.subrange(k - p.len(), k as int) =~= s@.subrange(k - p.len(), k as int));
        }
    }
    k
}

proof fn lemma_replace_step_match(s: Seq<char>, from: Seq<char>, to: Seq<char>, i: int)
    requires
        from.len() > 0,
        0 <= i,
        i + from.len() <= s.len(),
        occurs_at(s, from, i),
    ensures
        replace_all(s.skip(i), from, to) == to + replace_all(s.skip(i + from.len()), from, to),
{
    let t = s.skip(i);
    assert(t.subrange(0, from.len() as int) =~= s.subrange(i, i + from.len()));
    assert(t.skip(from.len() as int) =~= s.skip(i + from.len()));
}

proof fn lemma_replace_step_other(s: Seq<char>, from: Seq<char>, to: Seq<char>, i: int)
    requires
        from.len() > 0,
        0 <= i,
        i + from.len() <= s.len(),
        !occurs_at(s, from, i),
    ensures
        replace_all(s.skip(i), from, to) == seq![s[i]] + replace_all(s.skip(i + 1), from, to),
{
    let t = s.skip(i);
    assert(!occurs_at(t, from, 0)) by {
        if occurs_at(t, from, 0) {
            assert(t.subrange(0, from.len() as int) =~= s.subrange(i, i + from.len()));
        }
    }
    assert(t.drop_first() =~= s.skip(i + 1));
}

/// Append all of `t` to `r`.
pub fn extend_chars(r: &mut Vec<char>, t: &Vec<char>)
    ensures
        final(r)@ == old(r)@ + t@,
{
    let ghost r0 = r@;
    let mut k: usize = 0;
    while k < t.len()
        invariant
            k <= t.len(),
            r@ == r0 + t@.take(k as int),
        decreases t.len() - k,
    {
        r.push(t[k]);
        k += 1;
        assert(r@ =~= r0 + t@.take(k as int));
    }
    assert(t@.take(t.len() as int) =~= t@);
}

/// `replace_all` on character vectors.
pub fn replace_chars(s: &Vec<char>, from: &Vec<char>, to: &Vec<char>) -> (r: Vec<char>)
    requires
        from.len() > 0,
    ensures
        r@ == replace_all(s@, from@, to@),
{
    let mut r: Vec<char> = Vec::new();
    let mut i: usize = 0;
    while i < s.len()
        invariant
            from.len() > 0,
            i <= s.len(),
            r@ + replace_all(s@.skip(i as int), from@, to@) == replace_all(s@, from@, to@),
        decreases s.len() - i,
    {
        if from.len() <= s.len() - i && matches_at(s, from, i) {
            proof {
                lemma_replace_step_match(s@, from@, to@, i as int);
            }
            let ghost r0 = r@;
            extend_chars(&mut r, to);
            assert(r0 + (to@ + replace_all(s@.skip(i + from.len()), from@, to@)) =~= r@
                + replace_all(s@.skip(i + from.len()), from@, to@));
            i += from.len();
        } else {
            if from.len() <= s.len() - i {
                proof {
                    lemma_replace_step_other(s@, from@, to@, i as int);
                }
            } else {
                assert(s@.skip(i as int).len() < from.len());
                assert(s@.skip(i as int) =~= seq![s@[i as int]] + s@.skip(i + 1));
                assert(replace_all(s@.skip(i + 1), from@, to@) == s@.skip(i + 1));
            }
            let ghost r0 = r@;
            r.push(s[i]);
            assert(r0 + (seq![s@[i as int]] + replace_all(s@.skip(i + 1), from@, to@)) =~= r@
                + replace_all(s@.skip(i + 1), from@, to@));
            i += 1;
        }
    }
    assert(s@.skip(s.len() as int) =~= Seq::<char>::empty());
    assert(r@ + Seq::<char>::empty() =~= r@);
    r
}

/// `str::replace` for a non-empty pattern.
pub fn replace(s: &str, from: &str, to: &str) -> (r: String)
    requires
        from@.len() > 0,
    ensures
        r@ == replace_all(s@, from@, to@),
{
    let sv = chars_of(s);
    let fv = chars_of(from);
    let tv = chars_of(to);
    let rv = replace_chars(&sv, &fv, &tv);
    string_from_chars(rv.as_slice())
}

} // verus!
