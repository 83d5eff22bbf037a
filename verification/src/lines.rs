//! Line splitting with the meaning of `str::lines`, and the "last N lines"
//! tails the transcript views are built from.

use vstd::prelude::*;
use crate::text::{chars_of, string_from_chars, extend_chars};

verus! {



/// Index of the first `'\n'` in `s`, or `s.len()` when there is none.
pub open spec fn nl_index(s: Seq<char>) -> int
    decreases s.len(),
{
    if s.len() == 0 {
        0
    } else if s[0] == '\n' {
        0
    } else {
        1 + nl_index(s.drop_first())
    }
}

/// `s` without one trailing `'\r'`.
pub open spec fn strip_cr(s: Seq<char>) -> Seq<char> {
    if s.len() > 0 && s.last() == '\r' {
        s.drop_last()
    } else {
        s
    }
}

pub proof fn lemma_nl_index_bounds(s: Seq<char>)
    ensures
        0 <= nl_index(s) <= s.len(),
        nl_index(s) < s.len() ==> s[nl_index(s)] == '\n',
        forall|j: int| 0 <= j < nl_index(s) ==> s[j] != '\n',
    decreases s.len(),
{
    if s.len() > 0 && s[0] != '\n' {
        lemma_nl_index_bounds(s.drop_first());
        assert forall|j: int| 0 <= j < nl_index(s) implies s[j] != '\n' by {
            if j > 0 {
                assert(s[j] == s.drop_first()[j - 1]);
            }
        }
    }
}

/// The lines of `s` (`str::lines`): pieces between `'\n'`s, each without a
/// trailing `'\r'` when that `'\r'` stood before a `'\n'`; a final line
/// ending adds no empty line.
pub open spec fn lines(s: Seq<char>) -> Seq<Seq<char>>
    decreases s.len(),
{
    if s.len() == 0 {
        seq![]
    } else {
        let k = nl_index(s);
        if k >= s.len() || k < 0 {
            seq![s]
        } else {
            seq![strip_cr(s.take(k))] + lines(s.skip(k + 1))
        }
    }
}

/// Lines joined with `'\n'` between them (`[&str]::join("\n")`).
pub open spec fn join_lines(ls: Seq<Seq<char>>) -> Seq<char>
    decreases ls.len(),
{
    if ls.len() == 0 {
        seq![]
    } else if ls.len() == 1 {
        ls[0]
    } else {
        join_lines(ls.drop_last()) + seq!['\n'] + ls.last()
    }
}

/// The last `n` lines of `s`, joined with `'\n'`.
pub open spec fn tail_lines(s: Seq<char>, n: nat) -> Seq<char> {
    let ls = lines(s);
    let start = if ls.len() > n { ls.len() - n } else { 0 };
    join_lines(ls.subrange(start as int, ls.len() as int))
}

proof fn lemma_nl_index_exact(t: Seq<char>, k: int)
    requires
        0 <= k <= t.len(),
        forall|j: int| 0 <= j < k ==> t[j] != '\n',
        k < t.len() ==> t[k] == '\n',
    ensures
        nl_index(t) == k,
    decreases k,
{
    if k > 0 {
        assert forall|j: int| 0 <= j < k - 1 implies t.drop_first()[j] != '\n' by {
            assert(t.drop_first()[j] == t[j + 1]);
        }
        lemma_nl_index_exact(t.drop_first(), k - 1);
    }
}

proof fn lemma_line_step(s: Seq<char>, st: int, i: int, done: Seq<Seq<char>>)
    requires
        0 <= st <= i < s.len(),
        forall|j: int| st <= j < i ==> s[j] != '\n',
        s[i] == '\n',
        done + lines(s.skip(st)) == lines(s),
    ensures
        done.push(strip_cr(s.subrange(st, i))) + lines(s.skip(i + 1)) == lines(s),
{
    let t = s.skip(st);
    lemma_nl_index_exact(t, i - st);
    assert(t.take(i - st) =~= s.subrange(st, i));
    assert(t.skip(i - st + 1) =~= s.skip(i + 1));
    assert(lines(t) == seq![strip_cr(s.subrange(st, i))] + lines(s.skip(i + 1)));
    assert(done.push(strip_cr(s.subrange(st, i))) + lines(s.skip(i + 1)) =~= done + lines(t));
}

/// Start and end (exclusive) of each line of `s`.
fn line_bounds(s: &Vec<char>) -> (r: Vec<(usize, usize)>)
    ensures
        r@.len() == lines(s@).len(),
        forall|i: int|
            #![trigger r@[i]]
            0 <= i < r@.len() ==> r@[i].0 <= r@[i].1 <= s@.len() && lines(s@)[i]
                == s@.subrange(r@[i].0 as int, r@[i].1 as int),
{
    let mut r: Vec<(usize, usize)> = Vec::new();
    let mut st: usize = 0;
    let mut i: usize = 0;
    let ghost mut done: Seq<Seq<char>> = seq![];
    assert(s@.skip(0) =~= s@);
    assert(done + lines(s@) =~= lines(s@));
    while i < s.len()
        invariant
            st <= i <= s.len(),
            forall|j: int| st <= j < i ==> s@[j] != '\n',
            done + lines(s@.skip(st as int)) == lines(s@),
            r@.len() == done.len(),
            forall|q: int|
                #![trigger r@[q]]
                0 <= q < r@.len() ==> r@[q].0 <= r@[q].1 <= s@.len() && done[q]
                    == s@.subrange(r@[q].0 as int, r@[q].1 as int),
        decreases s.len() - i,
    {
        if s[i] == '\n' {
            proof {
                lemma_line_step(s@, st as int, i as int, done);
            }
            let e: usize = if i > st && s[i - 1] == '\r' {
                i - 1
            } else {
                i
            };
            proof {
                assert(strip_cr(s@.subrange(st as int, i as int)) =~= s@.subrange(
                    st as int,
                    e as int,
                ));
                done = done.push(s@.subrange(st as int, e as int));
            }
            r.push((st, e));
            st = i + 1;
        }
        i += 1;
    }
    if st < s.len() {
        let ghost t = s@.skip(st as int);
        proof {
            lemma_nl_index_exact(t, t.len() as int);
            assert(t =~= s@.subrange(st as int, s.len() as int));
            done = done.push(t);
            assert(done =~= lines(s@));
        }
        r.push((st, s.len()));
    } else {
        assert(s@.skip(st as int).len() == 0);
        assert(done =~= lines(s@));
    }
    r
}

/// The last `n` lines of `s` joined with `'\n'`, as a character vector.
pub fn tail_lines_chars(s: &Vec<char>, n: usize) -> (out: Vec<char>)
    ensures
        out@ == tail_lines(s@, n as nat),
{
    let b = line_bounds(s);
    let ghost ls = lines(s@);
    let start: usize = if b.len() > n {
        b.len() - n
    } else {
        0
    };
    let mut out: Vec<char> = Vec::new();
    let mut k: usize = start;
    while k < b.len()
        invariant
            start <= k <= b.len(),
            b@.len() == ls.len(),
            ls == lines(s@),
            forall|i: int|
                #![trigger b@[i]]
                0 <= i < b@.len() ==> b@[i].0 <= b@[i].1 <= s@.len() && ls[i]
                    == s@.subrange(b@[i].0 as int, b@[i].1 as int),
            out@ == join_lines(ls.subrange(start as int, k as int)),
        decreases b.len() - k,
    {
        let (a, e) = b[k];
        let ghost prev = out@;
        if k > start {
            out.push('\n');
        }
        let piece = crate::text::slice_chars(s, a, e);
        extend_chars(&mut out, &piece);
        proof {
            let sub = ls.subrange(start as int, k + 1);
            assert(sub.drop_last() =~= ls.subrange(start as int, k as int));
            assert(sub.last() == ls[k as int]);
            if k == start {
                assert(sub.len() == 1);
                assert(out@ =~= sub[0]);
            } else {
                assert(out@ =~= prev + seq!['\n'] + ls[k as int]);
            }
        }
        k += 1;
    }
    out
}

/// The last `n` lines of `text`, joined with `"\n"` (the shape the transcript
/// views send as `tail`).
pub fn last_lines(text: &str, n: usize) -> (out: String)
    ensures
        out@ == tail_lines(text@, n as nat),
{
    let v = chars_of(text);
    let t = tail_lines_chars(&v, n);
    string_from_chars(t.as_slice())
}

} // verus!
