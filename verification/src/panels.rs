//! Parsing the panel pass's answer: `## PANEL: name` blocks.
//!
//! A block starts at the beginning of a line with `## PANEL:`, then optional
//! whitespace, the panel name (a run of non-whitespace), whitespace holding
//! at least one line break, and the body. The body runs to the next line that
//! starts `## PANEL:`, `## DECISION:` or `## STATE:`, or to the end of the
//! text. The whitespace after the name is taken up to its last line break.
//! This is the pattern
//! `(?ms)^## PANEL:\s*(\S+)\s*\n(.*?)(?=\n## PANEL:|\n## DECISION:|\n## STATE:|\z)`
//! matched left to right without overlap.

use vstd::prelude::*;
use crate::text::{
    chars_of, string_from_chars, is_ws, whitespace, occurs_at, matches_at, trim,
    trim_chars, slice_chars,
};
use crate::strmap::{StrMap, entry_put};

verus! {

/// Whether `i` is the start of a line of `t`.
pub open spec fn line_start(t: Seq<char>, i: int) -> bool {
    i == 0 || (0 < i <= t.len() && t[i - 1] == '\n')
}

/// First position at or after `i` that is not whitespace (or the end).
pub open spec fn skip_ws(t: Seq<char>, i: int) -> int
    decreases t.len() - i,
{
    if 0 <= i < t.len() && is_ws(t[i]) {
        skip_ws(t, i + 1)
    } else {
        i
    }
}

/// First position at or after `i` that is whitespace (or the end).
pub open spec fn skip_non_ws(t: Seq<char>, i: int) -> int
    decreases t.len() - i,
{
    if 0 <= i < t.len() && !is_ws(t[i]) {
        skip_non_ws(t, i + 1)
    } else {
        i
    }
}

/// The last line break in `t[lo..hi]`, or -1.
pub open spec fn last_newline(t: Seq<char>, lo: int, hi: int) -> int
    decreases hi - lo,
{
    if hi <= lo || hi > t.len() || lo < 0 {
        -1
    } else if t[hi - 1] == '\n' {
        hi - 1
    } else {
        last_newline(t, lo, hi - 1)
    }
}

/// Whether a panel body may end at `p`.
pub open spec fn body_stop(t: Seq<char>, p: int) -> bool {
    p == t.len() || occurs_at(t, "\n## PANEL:"@, p) || occurs_at(t, "\n## DECISION:"@, p)
        || occurs_at(t, "\n## STATE:"@, p)
}

/// The first position at or after `p` where a body may end.
pub open spec fn body_end(t: Seq<char>, p: int) -> int
    decreases t.len() - p,
{
    if p < 0 || p >= t.len() || body_stop(t, p) {
        p
    } else {
        body_end(t, p + 1)
    }
}

/// The block starting at `i`, as (name start, name end, body start, body end).
pub open spec fn block_at(t: Seq<char>, i: int) -> Option<(int, int, int, int)> {
    if line_start(t, i) && occurs_at(t, "## PANEL:"@, i) {
        let ns = skip_ws(t, i + 9);
        let ne = skip_non_ws(t, ns);
        let we = skip_ws(t, ne);
        let nl = last_newline(t, ne, we);
        if ne > ns && nl >= 0 {
            Some((ns, ne, nl + 1, body_end(t, nl + 1)))
        } else {
            None
        }
    } else {
        None
    }
}

/// (name, body) of each block found scanning from `pos`.
pub open spec fn blocks_from(t: Seq<char>, pos: int) -> Seq<(Seq<char>, Seq<char>)>
    decreases t.len() + 1 - pos,
{
    if pos < 0 || pos > t.len() {
        seq![]
    } else {
        match block_at(t, pos) {
            Some(m) => if 0 <= m.0 <= m.1 <= m.2 <= m.3 <= t.len() && m.3 > pos {
                seq![(t.subrange(m.0, m.1), t.subrange(m.2, m.3))] + blocks_from(t, m.3)
            } else {
                seq![]
            },
            None => blocks_from(t, pos + 1),
        }
    }
}

/// The blocks of `t`, in order.
pub open spec fn panel_blocks(t: Seq<char>) -> Seq<(Seq<char>, Seq<char>)> {
    blocks_from(t, 0)
}

/// `str::to_lowercase` (Unicode lower case) of `s`.
pub uninterp spec fn lowercase(s: Seq<char>) -> Seq<char>;

/// Calls `str::to_lowercase`: the Unicode lower-case mapping of each
/// character. Claimed: the result is `lowercase` of the argument, a function
/// of the characters alone.
#[verifier::external_body]
fn to_lowercase(s: &str) -> (r: String)
    ensures
        r@ == lowercase(s@),
{
    s.to_lowercase()
}

/// Stored key of a block: its name in lower case.
pub open spec fn block_key(name: Seq<char>) -> Seq<char> {
    lowercase(name)
}

/// Stored text of a block: a heading with the key, a blank line, and the
/// trimmed body.
pub open spec fn block_text(name: Seq<char>, body: Seq<char>) -> Seq<char> {
    "## PANEL: "@ + block_key(name) + "\n\n"@ + trim(body)
}

/// Panels from blocks, later blocks overriding earlier ones of the same key.
pub open spec fn panels_from_blocks(bs: Seq<(Seq<char>, Seq<char>)>) -> Seq<
    (Seq<char>, Seq<char>),
>
    decreases bs.len(),
{
    if bs.len() == 0 {
        seq![]
    } else {
        let b = bs.last();
        entry_put(panels_from_blocks(bs.drop_last()), block_key(b.0), block_text(b.0, b.1))
    }
}

/// Entries of a string map with each value taken as its characters.
pub open spec fn text_entries(es: Seq<(Seq<char>, String)>) -> Seq<(Seq<char>, Seq<char>)> {
    es.map_values(|e: (Seq<char>, String)| (e.0, e.1@))
}

// ───────────────────────── scanning ─────────────────────────

proof fn lemma_skip_ws_at(t: Seq<char>, i: int, j: int)
    requires
        0 <= i <= j <= t.len(),
        forall|m: int| i <= m < j ==> is_ws(t[m]),
        j == t.len() || !is_ws(t[j]),
    ensures
        skip_ws(t, i) == j,
    decreases j - i,
{
    if i < j {
        lemma_skip_ws_at(t, i + 1, j);
    }
}

proof fn lemma_skip_non_ws_at(t: Seq<char>, i: int, j: int)
    requires
        0 <= i <= j <= t.len(),
        forall|m: int| i <= m < j ==> !is_ws(t[m]),
        j == t.len() || is_ws(t[j]),
    ensures
        skip_non_ws(t, i) == j,
    decreases j - i,
{
    if i < j {
        lemma_skip_non_ws_at(t, i + 1, j);
    }
}

fn skip_ws_exec(v: &Vec<char>, i: usize) -> (r: usize)
    requires
        i <= v.len(),
    ensures
        r as int == skip_ws(v@, i as int),
        i <= r <= v.len(),
{
    let mut j = i;
    while j < v.len() && whitespace(v[j])
        invariant
            i <= j <= v.len(),
            forall|m: int| i <= m < j ==> is_ws(v@[m]),
        decreases v.len() - j,
    {
        j += 1;
    }
    proof {
        lemma_skip_ws_at(v@, i as int, j as int);
    }
    j
}

fn skip_non_ws_exec(v: &Vec<char>, i: usize) -> (r: usize)
    requires
        i <= v.len(),
    ensures
        r as int == skip_non_ws(v@, i as int),
        i <= r <= v.len(),
{
    let mut j = i;
    while j < v.len() && !whitespace(v[j])
        invariant
            i <= j <= v.len(),
            forall|m: int| i <= m < j ==> !is_ws(v@[m]),
        decreases v.len() - j,
    {
        j += 1;
    }
    proof {
        lemma_skip_non_ws_at(v@, i as int, j as int);
    }
    j
}

/// `last_newline(v, lo, hi) + 1` (0 when there is none).
fn last_newline_exec(v: &Vec<char>, lo: usize, hi: usize) -> (r: usize)
    requires
        lo <= hi <= v.len(),
    ensures
        r as int == last_newline(v@, lo as int, hi as int) + 1,
        r <= hi,
        r > 0 ==> lo < r,
{
    let mut h = hi;
    while h > lo && v[h - 1] != '\n'
        invariant
            lo <= h <= hi <= v.len(),
            last_newline(v@, lo as int, hi as int) == last_newline(v@, lo as int, h as int),
        decreases h,
    {
        h -= 1;
    }
    if h > lo {
        h
    } else {
        0
    }
}

fn body_end_exec(v: &Vec<char>, p: usize, stops: &Vec<Vec<char>>) -> (r: usize)
    requires
        p <= v.len(),
        stops@.len() == 3,
        stops@[0]@ == "\n## PANEL:"@,
        stops@[1]@ == "\n## DECISION:"@,
        stops@[2]@ == "\n## STATE:"@,
    ensures
        r as int == body_end(v@, p as int),
        p <= r <= v.len(),
{
    let mut q = p;
    while q < v.len() && !matches_at(v, &stops[0], q) && !matches_at(v, &stops[1], q)
        && !matches_at(v, &stops[2], q)
        invariant
            p <= q <= v.len(),
            stops@.len() == 3,
            stops@[0]@ == "\n## PANEL:"@,
            stops@[1]@ == "\n## DECISION:"@,
            stops@[2]@ == "\n## STATE:"@,
            body_end(v@, p as int) == body_end(v@, q as int),
        decreases v.len() - q,
    {
        q += 1;
    }
    q
}

fn block_at_exec(v: &Vec<char>, i: usize, head: &Vec<char>, stops: &Vec<Vec<char>>) -> (r: Option<
    (usize, usize, usize, usize),
>)
    requires
        i <= v.len(),
        head@ == "## PANEL:"@,
        stops@.len() == 3,
        stops@[0]@ == "\n## PANEL:"@,
        stops@[1]@ == "\n## DECISION:"@,
        stops@[2]@ == "\n## STATE:"@,
    ensures
        match r {
            Some(m) => block_at(v@, i as int) == Some(
                (m.0 as int, m.1 as int, m.2 as int, m.3 as int),
            ) && m.0 <= m.1 <= m.2 <= m.3 <= v.len() && i < m.3,
            None => block_at(v@, i as int) is None,
        },
{
    proof {
        reveal_strlit("## PANEL:");
    }
    let at_line_start = i == 0 || v[i - 1] == '\n';
    if !at_line_start || !matches_at(v, head, i) {
        return None;
    }
    let ns = skip_ws_exec(v, i + 9);
    let ne = skip_non_ws_exec(v, ns);
    let we = skip_ws_exec(v, ne);
    let nl1 = last_newline_exec(v, ne, we);
    if ne > ns && nl1 > 0 {
        let be = body_end_exec(v, nl1, stops);
        Some((ns, ne, nl1, be))
    } else {
        None
    }
}

/// Bounds of the blocks of `v`, in order.
fn scan_blocks(v: &Vec<char>) -> (r: Vec<(usize, usize, usize, usize)>)
    ensures
        r@.len() == panel_blocks(v@).len(),
        forall|k: int|
            #![trigger r@[k]]
            0 <= k < r@.len() ==> r@[k].0 <= r@[k].1 <= r@[k].2 <= r@[k].3 <= v@.len()
                && panel_blocks(v@)[k] == (
                v@.subrange(r@[k].0 as int, r@[k].1 as int),
                v@.subrange(r@[k].2 as int, r@[k].3 as int),
            ),
{
    let head = chars_of("## PANEL:");
    let mut stops: Vec<Vec<char>> = Vec::new();
    stops.push(chars_of("\n## PANEL:"));
    stops.push(chars_of("\n## DECISION:"));
    stops.push(chars_of("\n## STATE:"));
    let mut r: Vec<(usize, usize, usize, usize)> = Vec::new();
    let ghost mut done: Seq<(Seq<char>, Seq<char>)> = seq![];
    let mut pos: usize = 0;
    while pos < v.len()
        invariant
            pos <= v.len(),
            head@ == "## PANEL:"@,
            stops@.len() == 3,
            stops@[0]@ == "\n## PANEL:"@,
            stops@[1]@ == "\n## DECISION:"@,
            stops@[2]@ == "\n## STATE:"@,
            done + blocks_from(v@, pos as int) == panel_blocks(v@),
            r@.len() == done.len(),
            forall|k: int|
                #![trigger r@[k]]
                0 <= k < r@.len() ==> r@[k].0 <= r@[k].1 <= r@[k].2 <= r@[k].3 <= v@.len()
                    && done[k] == (
                    v@.subrange(r@[k].0 as int, r@[k].1 as int),
                    v@.subrange(r@[k].2 as int, r@[k].3 as int),
                ),
        decreases v.len() - pos,
    {
        match block_at_exec(v, pos, &head, &stops) {
            Some(m) => {
                let ghost item = (
                    v@.subrange(m.0 as int, m.1 as int),
                    v@.subrange(m.2 as int, m.3 as int),
                );
                proof {
                    assert(blocks_from(v@, pos as int) == seq![item] + blocks_from(
                        v@,
                        m.3 as int,
                    ));
                    assert(done.push(item) + blocks_from(v@, m.3 as int) =~= done + blocks_from(
                        v@,
                        pos as int,
                    ));
                    done = done.push(item);
                }
                r.push(m);
                pos = m.3;
            },
            None => {
                pos += 1;
            },
        }
    }
    proof {
        reveal_strlit("## PANEL:");
        assert(block_at(v@, v@.len() as int) is None);
        assert(blocks_from(v@, v@.len() as int + 1) =~= Seq::<(Seq<char>, Seq<char>)>::empty());
        assert(blocks_from(v@, v@.len() as int) =~= Seq::<(Seq<char>, Seq<char>)>::empty());
        assert(done + Seq::<(Seq<char>, Seq<char>)>::empty() =~= done);
    }
    r
}

proof fn lemma_skip_ws_props(t: Seq<char>, i: int)
    requires
        0 <= i <= t.len(),
    ensures
        i <= skip_ws(t, i) <= t.len(),
        forall|m: int| i <= m < skip_ws(t, i) ==> is_ws(#[trigger] t[m]),
    decreases t.len() - i,
{
    if i < t.len() && is_ws(t[i]) {
        lemma_skip_ws_props(t, i + 1);
    }
}

proof fn lemma_last_newline_props(t: Seq<char>, lo: int, hi: int)
    requires
        0 <= lo < hi <= t.len(),
        t[lo] == '\n',
    ensures
        lo <= last_newline(t, lo, hi) < hi,
    decreases hi - lo,
{
    if t[hi - 1] != '\n' {
        lemma_last_newline_props(t, lo, hi - 1);
    }
}

proof fn lemma_body_runs_to_end(t: Seq<char>, q: int)
    requires
        0 <= q <= t.len(),
        forall|p: int| q <= p < t.len() ==> !body_stop(t, p),
    ensures
        body_end(t, q) == t.len(),
    decreases t.len() - q,
{
    if q < t.len() {
        lemma_body_runs_to_end(t, q + 1);
    }
}

proof fn lemma_trim_start_skip_ws(s: Seq<char>, d: int)
    requires
        0 <= d <= s.len(),
        forall|m: int| 0 <= m < d ==> is_ws(#[trigger] s[m]),
    ensures
        crate::text::trim_start(s.skip(d)) == crate::text::trim_start(s),
    decreases d,
{
    if d > 0 {
        assert(s.skip(1) =~= s.drop_first());
        assert(s.drop_first().skip(d - 1) =~= s.skip(d));
        lemma_trim_start_skip_ws(s.drop_first(), d - 1);
    } else {
        assert(s.skip(0) =~= s);
    }
}

/// An answer that is one `## PANEL:` heading with a name (any run of
/// non-whitespace characters, dashes included) on its first line, and a
/// body that starts no further block, gives exactly one panel: stored under
/// the name in lower case, as a heading with that key, a blank line, and
/// the trimmed body.
pub proof fn law_single_block_gives_one_panel(name: Seq<char>, body: Seq<char>)
    requires
        name.len() > 0,
        forall|i: int| 0 <= i < name.len() ==> !is_ws(#[trigger] name[i]),
        !crate::text::contains(body, "\n## PANEL:"@),
        !crate::text::contains(body, "\n## DECISION:"@),
        !crate::text::contains(body, "\n## STATE:"@),
    ensures
        panels_from_blocks(panel_blocks("## PANEL: "@ + name + "\n"@ + body)) == seq![
            (lowercase(name), "## PANEL: "@ + lowercase(name) + "\n\n"@ + trim(body)),
        ],
{
    reveal_strlit("## PANEL: ");
    reveal_strlit("## PANEL:");
    reveal_strlit("\n");
    reveal_strlit("\n## PANEL:");
    reveal_strlit("\n## DECISION:");
    reveal_strlit("\n## STATE:");
    let t = "## PANEL: "@ + name + "\n"@ + body;
    let l = name.len() as int;
    let ne = 10 + l;
    let b0 = ne + 1;
    assert(t.len() == b0 + body.len());
    assert forall|i: int| 0 <= i < l implies t[10 + i] == name[i] by {}
    assert forall|i: int| 0 <= i < body.len() implies t[b0 + i] == body[i] by {}
    assert(t[ne] == '\n');
    assert(t[9] == ' ');
    // the heading
    assert(t.subrange(0, 9) =~= "## PANEL:"@);
    assert(occurs_at(t, "## PANEL:"@, 0));
    assert(is_ws(' '));
    assert(is_ws('\n'));
    lemma_skip_ws_at(t, 9, 10);
    lemma_skip_non_ws_at(t, 10, ne);
    assert(t.subrange(10, ne) =~= name);
    let we = skip_ws(t, ne);
    lemma_skip_ws_props(t, ne);
    lemma_skip_ws_props(t, ne + 1);
    assert(we == skip_ws(t, ne + 1));
    assert(we > ne);
    lemma_last_newline_props(t, ne, we);
    let nl = last_newline(t, ne, we);
    // the body runs to the end of the text
    assert forall|p: int| nl + 1 <= p < t.len() implies !body_stop(t, p) by {
        let q = p - b0;
        assert(0 <= q < body.len());
        if occurs_at(t, "\n## PANEL:"@, p) {
            assert(body.subrange(q, q + 10) =~= t.subrange(p, p + 10));
            assert(occurs_at(body, "\n## PANEL:"@, q));
        }
        if occurs_at(t, "\n## DECISION:"@, p) {
            assert(body.subrange(q, q + 13) =~= t.subrange(p, p + 13));
            assert(occurs_at(body, "\n## DECISION:"@, q));
        }
        if occurs_at(t, "\n## STATE:"@, p) {
            assert(body.subrange(q, q + 10) =~= t.subrange(p, p + 10));
            assert(occurs_at(body, "\n## STATE:"@, q));
        }
    }
    lemma_body_runs_to_end(t, nl + 1);
    assert(block_at(t, 0) == Some((10int, ne, nl + 1, t.len() as int)));
    // nothing after it
    assert(block_at(t, t.len() as int) is None);
    assert(blocks_from(t, t.len() as int + 1) =~= Seq::<(Seq<char>, Seq<char>)>::empty());
    assert(blocks_from(t, t.len() as int) =~= Seq::<(Seq<char>, Seq<char>)>::empty());
    let got = t.subrange(nl + 1, t.len() as int);
    assert(panel_blocks(t) =~= seq![(name, got)]);
    // the stored body is the trimmed body
    let d = nl + 1 - b0;
    assert(got =~= body.skip(d));
    assert forall|m: int| 0 <= m < d implies is_ws(#[trigger] body[m]) by {
        assert(body[m] == t[b0 + m]);
    }
    lemma_trim_start_skip_ws(body, d);
    assert(trim(got) == trim(body));
    let bs = seq![(name, got)];
    assert(bs.drop_last() =~= Seq::<(Seq<char>, Seq<char>)>::empty());
    let key = lowercase(name);
    let e0 = Seq::<(Seq<char>, Seq<char>)>::empty();
    assert(crate::strmap::entry_keys(e0) =~= Seq::<Seq<char>>::empty());
    assert(e0.insert(0, (key, block_text(name, got))) =~= seq![(key, block_text(name, got))]);
    assert(panels_from_blocks(bs.drop_last()) == e0);
    assert(crate::keys::first_index(crate::strmap::entry_keys(e0), key) == 0);
    assert(crate::keys::insert_index(crate::strmap::entry_keys(e0), key) == 0);
    assert(panels_from_blocks(bs) == entry_put(e0, key, block_text(name, got)));
    assert(entry_put(e0, key, block_text(name, got)) == seq![(key, block_text(name, got))]);
    assert(block_text(name, got) == "## PANEL: "@ + key + "\n\n"@ + trim(body));
}

proof fn lemma_body_end_at(t: Seq<char>, q: int, e: int)
    requires
        0 <= q <= e <= t.len(),
        forall|p: int| q <= p < e ==> !body_stop(t, p),
        body_stop(t, e),
    ensures
        body_end(t, q) == e,
    decreases e - q,
{
    if q < e {
        lemma_body_end_at(t, q + 1, e);
    }
}

/// A block's body ends where a line starting `## PANEL:`, `## DECISION:`
/// or `## STATE:` begins: for a heading with any name (a run of
/// non-whitespace characters), a body with some text and no such line,
/// and what follows starting with such a line (or nothing), the first
/// block is that name with that body, and the blocks after it are the ones
/// found from the next heading on.
pub proof fn law_block_body_ends_at_next_heading(
    name: Seq<char>,
    body: Seq<char>,
    tail: Seq<char>,
)
    requires
        name.len() > 0,
        forall|i: int| 0 <= i < name.len() ==> !is_ws(#[trigger] name[i]),
        exists|i: int| 0 <= i < body.len() && !is_ws(#[trigger] body[i]),
        !crate::text::contains(body, "\n## PANEL:"@),
        !crate::text::contains(body, "\n## DECISION:"@),
        !crate::text::contains(body, "\n## STATE:"@),
        tail.len() == 0 || occurs_at(tail, "\n## PANEL:"@, 0) || occurs_at(tail, "\n## DECISION:"@, 0)
            || occurs_at(tail, "\n## STATE:"@, 0),
    ensures
        ({
            let t = "## PANEL: "@ + name + "\n"@ + body + tail;
            let bs = panel_blocks(t);
            &&& bs.len() >= 1
            &&& bs[0].0 == name
            &&& trim(bs[0].1) == trim(body)
            &&& bs.drop_first() == blocks_from(t, 11 + name.len() as int + body.len() as int)
        }),
{
    reveal_strlit("## PANEL: ");
    reveal_strlit("## PANEL:");
    reveal_strlit("\n");
    reveal_strlit("\n## PANEL:");
    reveal_strlit("\n## DECISION:");
    reveal_strlit("\n## STATE:");
    let t = "## PANEL: "@ + name + "\n"@ + body + tail;
    let l = name.len() as int;
    let ne = 10 + l;
    let b0 = ne + 1;
    let e = b0 + body.len();
    assert(t.len() == e + tail.len());
    assert forall|i: int| 0 <= i < l implies t[10 + i] == name[i] by {}
    assert forall|i: int| 0 <= i < body.len() implies t[b0 + i] == body[i] by {}
    assert forall|i: int| 0 <= i < tail.len() implies t[e + i] == tail[i] by {}
    assert(t[ne] == '\n');
    assert(t[9] == ' ');
    assert(t.subrange(0, 9) =~= "## PANEL:"@);
    assert(occurs_at(t, "## PANEL:"@, 0));
    assert(is_ws(' '));
    assert(is_ws('\n'));
    lemma_skip_ws_at(t, 9, 10);
    lemma_skip_non_ws_at(t, 10, ne);
    assert(t.subrange(10, ne) =~= name);
    let we = skip_ws(t, ne);
    lemma_skip_ws_props(t, ne);
    lemma_skip_ws_props(t, ne + 1);
    assert(we == skip_ws(t, ne + 1));
    let i0 = choose|i: int| 0 <= i < body.len() && !is_ws(#[trigger] body[i]);
    assert(!is_ws(t[b0 + i0]));
    assert(we <= b0 + i0);
    lemma_last_newline_props(t, ne, we);
    let nl = last_newline(t, ne, we);
    assert(nl + 1 <= e);
    // no heading begins inside the body, nor across its end
    if tail.len() > 0 {
        if occurs_at(tail, "\n## PANEL:"@, 0) {
            assert(tail.subrange(0, 10)[0] == tail[0]);
        } else if occurs_at(tail, "\n## DECISION:"@, 0) {
            assert(tail.subrange(0, 13)[0] == tail[0]);
        } else {
            assert(tail.subrange(0, 10)[0] == tail[0]);
        }
        assert(tail[0] == '\n');
        assert(t[e] == '\n');
    }
    let p1 = "\n## PANEL:"@;
    let p2 = "\n## DECISION:"@;
    let p3 = "\n## STATE:"@;
    assert forall|k: int| 1 <= k < 10 implies p1[k] != '\n' && p3[k] != '\n' by {}
    assert forall|k: int| 1 <= k < 13 implies p2[k] != '\n' by {}
    assert forall|p: int| nl + 1 <= p < e implies !body_stop(t, p) by {
        let q = p - b0;
        assert(0 <= q < body.len());
        if occurs_at(t, "\n## PANEL:"@, p) {
            if p + 10 <= e {
                assert(body.subrange(q, q + 10) =~= t.subrange(p, p + 10));
                assert(occurs_at(body, "\n## PANEL:"@, q));
            } else {
                assert(t.subrange(p, p + 10)[e - p] == t[e]);
            }
        }
        if occurs_at(t, "\n## DECISION:"@, p) {
            if p + 13 <= e {
                assert(body.subrange(q, q + 13) =~= t.subrange(p, p + 13));
                assert(occurs_at(body, "\n## DECISION:"@, q));
            } else {
                assert(t.subrange(p, p + 13)[e - p] == t[e]);
            }
        }
        if occurs_at(t, "\n## STATE:"@, p) {
            if p + 10 <= e {
                assert(body.subrange(q, q + 10) =~= t.subrange(p, p + 10));
                assert(occurs_at(body, "\n## STATE:"@, q));
            } else {
                assert(t.subrange(p, p + 10)[e - p] == t[e]);
            }
        }
    }
    if tail.len() > 0 {
        if occurs_at(tail, "\n## PANEL:"@, 0) {
            assert(t.subrange(e, e + 10) =~= tail.subrange(0, 10));
        } else if occurs_at(tail, "\n## DECISION:"@, 0) {
            assert(t.subrange(e, e + 13) =~= tail.subrange(0, 13));
        } else {
            assert(t.subrange(e, e + 10) =~= tail.subrange(0, 10));
        }
    }
    assert(body_stop(t, e));
    lemma_body_end_at(t, nl + 1, e);
    assert(block_at(t, 0) == Some((10int, ne, nl + 1, e)));
    let got = t.subrange(nl + 1, e);
    assert(panel_blocks(t) == seq![(name, got)] + blocks_from(t, e));
    assert(panel_blocks(t).drop_first() =~= blocks_from(t, e));
    // the stored body is the trimmed body
    let d = nl + 1 - b0;
    assert(got =~= body.skip(d));
    assert forall|m: int| 0 <= m < d implies is_ws(#[trigger] body[m]) by {
        assert(body[m] == t[b0 + m]);
    }
    lemma_trim_start_skip_ws(body, d);
}

proof fn lemma_text_entries_put(es: Seq<(Seq<char>, String)>, k: Seq<char>, v: String)
    ensures
        text_entries(entry_put(es, k, v)) == entry_put(text_entries(es), k, v@),
{
    let ks = crate::strmap::entry_keys(es);
    assert(crate::strmap::entry_keys(text_entries(es)) =~= ks);
    crate::keys::lemma_first_index(ks, k);
    crate::keys::lemma_insert_index(ks, k);
    assert(text_entries(entry_put(es, k, v)) =~= entry_put(text_entries(es), k, v@));
}

/// The panels in the panel pass's answer: each block stored under its name
/// in lower case as a heading, a blank line and the trimmed body; a later
/// block replaces an earlier one of the same name.
pub fn parse_panels(text: &str) -> (r: StrMap<String>)
    ensures
        text_entries(r@) == panels_from_blocks(panel_blocks(text@)),
{
    let v = chars_of(text);
    let bs = scan_blocks(&v);
    let ghost blocks = panel_blocks(v@);
    let mut out: StrMap<String> = StrMap::new();
    let mut k: usize = 0;
    assert(text_entries(out@) =~= panels_from_blocks(blocks.take(0)));
    while k < bs.len()
        invariant
            k <= bs@.len(),
            blocks == panel_blocks(v@),
            v@ == text@,
            bs@.len() == blocks.len(),
            forall|q: int|
                #![trigger bs@[q]]
                0 <= q < bs@.len() ==> bs@[q].0 <= bs@[q].1 <= bs@[q].2 <= bs@[q].3 <= v@.len()
                    && blocks[q] == (
                    v@.subrange(bs@[q].0 as int, bs@[q].1 as int),
                    v@.subrange(bs@[q].2 as int, bs@[q].3 as int),
                ),
            text_entries(out@) == panels_from_blocks(blocks.take(k as int)),
        decreases bs.len() - k,
    {
        let (ns, ne, b0, b1) = bs[k];
        let name_chars = slice_chars(&v, ns, ne);
        let name = string_from_chars(name_chars.as_slice());
        let key = to_lowercase(name.as_str());
        let body_chars = slice_chars(&v, b0, b1);
        let body = trim_chars(&body_chars);
        let mut value = string_from_chars(&[]);
        value.append("## PANEL: ");
        value.append(key.as_str());
        value.append("\n\n");
        let body_s = string_from_chars(body.as_slice());
        value.append(body_s.as_str());
        proof {
            reveal_strlit("## PANEL: ");
            reveal_strlit("\n\n");
            assert(value@ =~= block_text(blocks[k as int].0, blocks[k as int].1));
            assert(blocks.take(k + 1).drop_last() =~= blocks.take(k as int));
            lemma_text_entries_put(out@, key@, value);
        }
        out.insert(key, value);
        k += 1;
    }
    assert(blocks.take(bs.len() as int) =~= blocks);
    out
}

} // verus!
