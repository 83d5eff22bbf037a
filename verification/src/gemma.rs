//! The LLM update passes: what goes into the prompts, and how the model's
//! answer becomes state and panels.
//!
//! Two passes run on debounced triggers: the state pass sends the
//! transcript tail and current state and deep-merges the JSON object it gets
//! back; the panel pass asks for `## PANEL: name` blocks and stores each.

use vstd::prelude::*;
use vstd::utf8::{encode_utf8, is_char_boundary};
use crate::text::{
    chars_of, string_from_chars, trim, trim_bounds, slice_chars, strip_prefixes,
    strip_suffixes, strip_prefixes_index, strip_suffixes_index, replace, replace_all,
    trimmed,
};
use crate::json::{JsonValue, merge};
use crate::state::{AppState, Event};
use crate::strmap::{entry_put, entry_get};
use crate::panels::{parse_panels, text_entries, panels_from_blocks, panel_blocks};

verus! {

broadcast use vstd::utf8::encode_utf8_valid_utf8;

/// Tuning of the two passes (debounce windows in milliseconds, token caps).
pub struct GemmaConfig {
    pub state_debounce_ms: u64,
    pub panel_debounce_ms: u64,
    pub state_max_tokens: i32,
    pub panel_max_tokens: i32,
}

impl GemmaConfig {
    /// State pass: 6 s debounce, 350 tokens; panel pass: 12 s, 1400 tokens.
    pub fn default() -> (c: Self)
        ensures
            c.state_debounce_ms == 6000,
            c.panel_debounce_ms == 12000,
            c.state_max_tokens == 350,
            c.panel_max_tokens == 1400,
    {
        GemmaConfig {
            state_debounce_ms: 6000,
            panel_debounce_ms: 12000,
            state_max_tokens: 350,
            panel_max_tokens: 1400,
        }
    }
}

/// Bytes of the transcript tail the state pass sends.
pub const STATE_TAIL_BYTES: usize = 2000;

/// Bytes of the transcript tail the panel pass sends.
pub const PANEL_TAIL_BYTES: usize = 3000;

/// The last `max` bytes of `bytes` (all of them when there are fewer).
pub open spec fn byte_tail(bytes: Seq<u8>, max: nat) -> Seq<u8> {
    if bytes.len() <= max {
        bytes
    } else {
        bytes.subrange(bytes.len() - max, bytes.len() as int)
    }
}

/// Whether cutting `text` to its last `max` bytes lands on a character
/// boundary (slicing a `str` elsewhere panics).
pub open spec fn tail_cut_ok(text: Seq<char>, max: nat) -> bool {
    let b = encode_utf8(text);
    b.len() <= max || is_char_boundary(b, b.len() - max)
}

/// The last `max_chars` bytes of `text`.
pub fn transcript_tail(text: &str, max_chars: usize) -> (r: String)
    requires
        tail_cut_ok(text@, max_chars as nat),
    ensures
        encode_utf8(r@) == byte_tail(encode_utf8(text@), max_chars as nat),
{
    let n = text.as_bytes().len();
    if n <= max_chars {
        text.to_owned()
    } else {
        let (_, t) = text.split_at(n - max_chars);
        t.to_owned()
    }
}


/// Leading instruction text of the panel pass prompt.
pub const PANEL_PROMPT_HEAD: &'static str = "Update these D&D session panels from the transcript. Output ONLY the blocks below, no other text.\n\
    \n\
    IMPORTANT RULES:\n\
    - OOC = out-of-character table talk. IGNORE OOC for scene/map/story.\n\
    - Scene and Map describe the GAME WORLD only \u{2014} never describe the players talking at the table.\n\
    - If recent transcript is mostly OOC, keep previous scene/map content unchanged.\n\
    - Next-steps: 3-5 COMPLETE sentences. Suggest items if shopping.\n\
    - Every sentence in every panel must be complete \u{2014} never cut off mid-sentence.\n\
    \n\
    ## PANEL: scene\n\
    Line 1: ONE punchy sentence (\u{2264}12 words, present tense). Then 1-2 sentences of optional detail.\n\
    \n\
    ## PANEL: story-log\n\
    (growing bullet list of major IN-GAME events only, keep all previous, add newest last)\n\
    \n\
    ## PANEL: party\n\
    (each character: name HP/max AC, active conditions \u{2014} enemies listed separately)\n\
    \n\
    ## PANEL: next-steps\n\
    3-5 bullets. Each bullet: \u{2264}7 words, starts with a verb.\n\
    \n\
    ## PANEL: map\n\
    Output ONLY lines in exactly these formats (no prose, no markdown):\n\
    node: ID | Label | type\n\
    edge: FromID | ToID | label\n\
    here: CharacterName | NodeID\n\
    \n\
    Current game state:\n\
    ";

/// The system prompt both passes send.
pub const SYSTEM_PROMPT: &'static str = "You are a precise D&D session state tracker. Output only what is asked, in exact format specified. No extra commentary.";

/// What the state prompt says in place of party data.
pub const NO_PARTY_DATA: &'static str = "(no party data yet)";

/// The state prompt: `template` with `{CURRENT_STATE}`, then `{PARTY_DATA}`,
/// then `{TRANSCRIPT}` replaced.
pub open spec fn state_prompt_text(template: Seq<char>, state: Seq<char>, tail: Seq<char>) -> Seq<
    char,
> {
    replace_all(
        replace_all(
            replace_all(template, "{CURRENT_STATE}"@, state),
            "{PARTY_DATA}"@,
            NO_PARTY_DATA@,
        ),
        "{TRANSCRIPT}"@,
        tail,
    )
}

/// Fill the state prompt template.
pub fn state_prompt(template: &str, current_state: &str, tail: &str) -> (r: String)
    ensures
        r@ == state_prompt_text(template@, current_state@, tail@),
{
    proof {
        reveal_strlit("{CURRENT_STATE}");
        reveal_strlit("{PARTY_DATA}");
        reveal_strlit("{TRANSCRIPT}");
    }
    let a = replace(template, "{CURRENT_STATE}", current_state);
    let b = replace(a.as_str(), "{PARTY_DATA}", NO_PARTY_DATA);
    replace(b.as_str(), "{TRANSCRIPT}", tail)
}

/// The panel prompt: instructions, the current state, then the transcript.
pub open spec fn panel_prompt_text(state: Seq<char>, tail: Seq<char>) -> Seq<char> {
    PANEL_PROMPT_HEAD@ + state + "\n\nTranscript:\n"@ + tail + "\n"@
}

/// Build the panel prompt.
pub fn panel_prompt(current_state: &str, tail: &str) -> (r: String)
    ensures
        r@ == panel_prompt_text(current_state@, tail@),
{
    let mut r = string_from_chars(&[]);
    r.append(PANEL_PROMPT_HEAD);
    r.append(current_state);
    r.append("\n\nTranscript:\n");
    r.append(tail);
    r.append("\n");
    assert(r@ =~= panel_prompt_text(current_state@, tail@));
    r
}

/// The transcript tail a pass sends: `None` for a blank transcript,
/// otherwise the last `max` bytes of the trimmed transcript.
pub open spec fn pass_tail(transcript: Seq<char>, max: nat) -> Option<Seq<u8>> {
    if trim(transcript).len() == 0 {
        None
    } else {
        Some(byte_tail(encode_utf8(trim(transcript)), max))
    }
}

fn pass_tail_exec(transcript: &str, max: usize) -> (r: Option<String>)
    requires
        tail_cut_ok(trim(transcript@), max as nat),
    ensures
        match r {
            Some(t) => pass_tail(transcript@, max as nat) == Some(encode_utf8(t@)),
            None => pass_tail(transcript@, max as nat) is None,
        },
{
    let t = trimmed(transcript);
    if t.as_str().is_empty() {
        None
    } else {
        Some(transcript_tail(t.as_str(), max))
    }
}

/// The state pass prompt for a transcript and the state's JSON text; `None`
/// when the transcript is blank (the pass then does nothing).
pub fn state_pass_prompt(template: &str, transcript: &str, state_json: &str) -> (r: Option<String>)
    requires
        tail_cut_ok(trim(transcript@), STATE_TAIL_BYTES as nat),
    ensures
        match r {
            Some(p) => exists|tail: Seq<char>|
                pass_tail(transcript@, STATE_TAIL_BYTES as nat) == Some(encode_utf8(tail))
                    && p@ == state_prompt_text(template@, state_json@, tail),
            None => pass_tail(transcript@, STATE_TAIL_BYTES as nat) is None,
        },
{
    match pass_tail_exec(transcript, STATE_TAIL_BYTES) {
        Some(tail) => Some(state_prompt(template, state_json, tail.as_str())),
        None => None,
    }
}

/// The panel pass prompt for a transcript and the state's JSON text; `None`
/// when the transcript is blank.
pub fn panel_pass_prompt(transcript: &str, state_json: &str) -> (r: Option<String>)
    requires
        tail_cut_ok(trim(transcript@), PANEL_TAIL_BYTES as nat),
    ensures
        match r {
            Some(p) => exists|tail: Seq<char>|
                pass_tail(transcript@, PANEL_TAIL_BYTES as nat) == Some(encode_utf8(tail))
                    && p@ == panel_prompt_text(state_json@, tail),
            None => pass_tail(transcript@, PANEL_TAIL_BYTES as nat) is None,
        },
{
    match pass_tail_exec(transcript, PANEL_TAIL_BYTES) {
        Some(tail) => Some(panel_prompt(state_json, tail.as_str())),
        None => None,
    }
}

/// Merge the state the model returned into the session; the event to
/// broadcast carries the whole merged state.
pub fn apply_state_pass(app: &mut AppState, parsed: &JsonValue) -> (e: Event)
    ensures
        final(app).state() == merge(old(app).state(), parsed@),
        final(app).transcript() == old(app).transcript(),
        final(app).panels() == old(app).panels(),
        final(app).dir() == old(app).dir(),
        e matches Event::State { data } && data@ == final(app).state(),
{
    app.merge_state(parsed);
    let snap = app.snapshot();
    Event::State { data: snap.state }
}

/// `es` with each of `new` put in turn.
pub open spec fn put_all(es: Seq<(Seq<char>, String)>, new: Seq<(Seq<char>, String)>) -> Seq<
    (Seq<char>, String),
>
    decreases new.len(),
{
    if new.len() == 0 {
        es
    } else {
        entry_put(put_all(es, new.drop_last()), new.last().0, new.last().1)
    }
}

/// Store the panels found in the model's answer; `None` (and nothing
/// stored) when it holds no panel block, otherwise the event to broadcast
/// with the panels found.
pub fn apply_panel_pass(app: &mut AppState, answer: &str) -> (e: Option<Event>)
    ensures
        final(app).transcript() == old(app).transcript(),
        final(app).state() == old(app).state(),
        final(app).dir() == old(app).dir(),
        match e {
            Some(Event::Panels { data }) => text_entries(data@) == panels_from_blocks(
                panel_blocks(answer@),
            ) && data@.len() > 0 && final(app).panels() == put_all(old(app).panels(), data@),
            None => panels_from_blocks(panel_blocks(answer@)).len() == 0 && final(app).panels()
                == old(app).panels(),
            _ => false,
        },
{
    let panels = parse_panels(answer);
    if panels.len() == 0 {
        assert(text_entries(panels@).len() == 0);
        return None;
    }
    let mut k: usize = 0;
    let ghost start = app.panels();
    assert(panels@.take(0) =~= Seq::<(Seq<char>, String)>::empty());
    while k < panels.len()
        invariant
            k <= panels@.len(),
            app.panels() == put_all(start, panels@.take(k as int)),
            app.transcript() == old(app).transcript(),
            app.state() == old(app).state(),
            app.dir() == old(app).dir(),
        decreases panels@.len() - k,
    {
        let (name, body) = panels.entry(k);
        app.set_panel(name.as_str(), body.clone());
        assert(panels@.take(k + 1).drop_last() =~= panels@.take(k as int));
        k += 1;
    }
    assert(panels@.take(panels@.len() as int) =~= panels@);
    Some(Event::Panels { data: panels })
}


/// Model output with surrounding whitespace and code fences removed:
/// `trim`, then leading "```json" repetitions, leading "```" repetitions,
/// trailing "```" repetitions, then `trim` again.
pub open spec fn clean_fences(raw: Seq<char>) -> Seq<char> {
    trim(
        strip_suffixes(
            strip_prefixes(strip_prefixes(trim(raw), "```json"@), "```"@),
            "```"@,
        ),
    )
}

/// Index of the first `c` in `s`, or `s.len()`.
pub open spec fn find_char(s: Seq<char>, c: char) -> int
    decreases s.len(),
{
    if s.len() == 0 {
        0
    } else if s[0] == c {
        0
    } else {
        1 + find_char(s.drop_first(), c)
    }
}

/// One character of a left-to-right reading of JSON text. The state is
/// (brace depth, inside a string literal, right after a backslash inside
/// one): braces count only outside string literals, a `"` opens or closes a
/// literal, and a backslash in a literal escapes the next character.
pub open spec fn scan_step(st: (int, bool, bool), c: char) -> (int, bool, bool) {
    if st.1 {
        if st.2 {
            (st.0, true, false)
        } else if c == '\\' {
            (st.0, true, true)
        } else if c == '"' {
            (st.0, false, false)
        } else {
            (st.0, true, false)
        }
    } else if c == '"' {
        (st.0, true, false)
    } else if c == '{' {
        (st.0 + 1, false, false)
    } else if c == '}' {
        (st.0 - 1, false, false)
    } else {
        (st.0, false, false)
    }
}

/// The reading state after all of `s`, starting outside any literal at
/// depth 0.
pub open spec fn scan(s: Seq<char>) -> (int, bool, bool)
    decreases s.len(),
{
    if s.len() == 0 {
        (0, false, false)
    } else {
        scan_step(scan(s.drop_last()), s.last())
    }
}

/// Opening minus closing braces in `s`, not counting those inside string
/// literals.
pub open spec fn brace_depth(s: Seq<char>) -> int {
    scan(s).0
}

/// The first `k >= from` with `brace_depth(s[..k]) == 0`, if any.
pub open spec fn first_balanced_from(s: Seq<char>, from: int) -> Option<int>
    decreases s.len() + 1 - from,
{
    if from < 1 || from > s.len() {
        None
    } else if brace_depth(s.take(from)) == 0 {
        Some(from)
    } else {
        first_balanced_from(s, from + 1)
    }
}

/// The first balanced `{...}` object in the cleaned model output: from the
/// first `{` to where the braces outside string literals first balance.
pub open spec fn first_json_object(raw: Seq<char>) -> Option<Seq<char>> {
    let c = clean_fences(raw);
    let s = find_char(c, '{');
    if s >= c.len() {
        None
    } else {
        match first_balanced_from(c.skip(s), 1) {
            Some(k) => Some(c.subrange(s, s + k)),
            None => None,
        }
    }
}

pub(crate) proof fn lemma_find_char_bounds(s: Seq<char>, c: char)
    ensures
        0 <= find_char(s, c) <= s.len(),
        find_char(s, c) < s.len() ==> s[find_char(s, c)] == c,
        forall|j: int| 0 <= j < find_char(s, c) ==> s[j] != c,
    decreases s.len(),
{
    if s.len() > 0 && s[0] != c {
        lemma_find_char_bounds(s.drop_first(), c);
        assert forall|j: int| 0 <= j < find_char(s, c) implies s[j] != c by {
            if j > 0 {
                assert(s[j] == s.drop_first()[j - 1]);
            }
        }
    }
}

pub(crate) proof fn lemma_find_char_at(s: Seq<char>, c: char, k: int)
    requires
        0 <= k <= s.len(),
        k < s.len() ==> s[k] == c,
        forall|j: int| 0 <= j < k ==> s[j] != c,
    ensures
        find_char(s, c) == k,
    decreases k,
{
    if k > 0 {
        assert forall|j: int| 0 <= j < k - 1 implies s.drop_first()[j] != c by {
            assert(s.drop_first()[j] == s[j + 1]);
        }
        lemma_find_char_at(s.drop_first(), c, k - 1);
    }
}

/// Index of the first `c` in `v[from..]`, or `v.len()`.
pub(crate) fn find_char_from(v: &Vec<char>, from: usize, c: char) -> (r: usize)
    requires
        from <= v.len(),
    ensures
        r as int == from + find_char(v@.skip(from as int), c),
{
    let mut i = from;
    while i < v.len() && v[i] != c
        invariant
            from <= i <= v.len(),
            forall|j: int| from <= j < i ==> v@[j] != c,
        decreases v.len() - i,
    {
        i += 1;
    }
    proof {
        let t = v@.skip(from as int);
        lemma_find_char_at(t, c, i - from);
    }
    i
}

/// The cleaned model output, as bounds into `v`: `v[a..b] == clean_fences(v)`.
pub(crate) fn clean_fences_bounds(v: &Vec<char>) -> (r: (usize, usize))
    ensures
        r.0 <= r.1 <= v.len(),
        v@.subrange(r.0 as int, r.1 as int) == clean_fences(v@),
{
    let (a1, b1) = trim_bounds(v);
    let c1 = slice_chars(v, a1, b1);
    let fence_json = chars_of("```json");
    let fence = chars_of("```");
    let k2 = strip_prefixes_index(&c1, &fence_json);
    let c2 = slice_chars(&c1, k2, c1.len());
    assert(c2@ == c1@.skip(k2 as int));
    let k3 = strip_prefixes_index(&c2, &fence);
    let c3 = slice_chars(&c2, k3, c2.len());
    assert(c3@ == c2@.skip(k3 as int));
    let k4 = strip_suffixes_index(&c3, c3.len(), &fence);
    assert(c3@.take(c3@.len() as int) =~= c3@);
    let c4 = slice_chars(&c3, 0, k4);
    assert(c4@ =~= c3@.take(k4 as int));
    let (a5, b5) = trim_bounds(&c4);
    let a = a1 + k2 + k3 + a5;
    let b = a1 + k2 + k3 + b5;
    assert(v@.subrange(a as int, b as int) =~= c4@.subrange(a5 as int, b5 as int));
    (a, b)
}

/// Reading one more character of a prefix.
proof fn lemma_depth_push(s: Seq<char>, k: int)
    requires
        0 <= k < s.len(),
    ensures
        scan(s.take(k + 1)) == scan_step(scan(s.take(k)), s[k]),
{
    assert(s.take(k + 1).drop_last() =~= s.take(k));
}

proof fn lemma_first_balanced_skip(s: Seq<char>, from: int)
    requires
        1 <= from <= s.len(),
        brace_depth(s.take(from)) != 0,
    ensures
        first_balanced_from(s, from) == first_balanced_from(s, from + 1),
{
}

/// The first balanced `{...}` object in the model output, with code fences
/// and surrounding whitespace ignored.
pub fn extract_first_json_object(raw: &str) -> (r: Option<&str>)
    ensures
        match r {
            Some(s) => first_json_object(raw@) == Some(s@),
            None => first_json_object(raw@) is None,
        },
{
    let v = chars_of(raw);
    let (a, b) = clean_fences_bounds(&v);
    let ghost c = v@.subrange(a as int, b as int);
    let s = find_char_from(&v, a, '{');
    proof {
        lemma_find_char_bounds(v@.skip(a as int), '{');
        assert(v@.skip(a as int).take(b - a) =~= c);
        // the first '{' of c is the first '{' at or after a, when before b
        lemma_find_char_bounds(c, '{');
        if s < b {
            assert(c[s - a] == '{');
            assert forall|j: int| 0 <= j < s - a implies c[j] != '{' by {
                assert(c[j] == v@.skip(a as int)[j]);
            }
            lemma_find_char_at(c, '{', s - a);
        } else {
            assert forall|j: int| 0 <= j < c.len() implies c[j] != '{' by {
                assert(c[j] == v@.skip(a as int)[j]);
            }
            lemma_find_char_at(c, '{', c.len() as int);
        }
    }
    if s >= b {
        return None;
    }
    let ghost t = c.skip(s - a);
    let mut depth: usize = 0;
    let mut in_str = false;
    let mut esc = false;
    let mut i: usize = s;
    while i < b
        invariant
            a <= s < b <= v.len(),
            s <= i <= b,
            v@ == raw@,
            v@[s as int] == '{',
            c == v@.subrange(a as int, b as int),
            c == clean_fences(raw@),
            find_char(c, '{') == s - a,
            t == c.skip(s - a),
            scan(t.take(i - s)) == (depth as int, in_str, esc),
            depth <= i - s,
            i == s ==> depth == 0 && !in_str && !esc,
            i > s ==> depth >= 1,
            i - s >= 1 ==> first_balanced_from(t, 1) == first_balanced_from(t, (i - s) + 1),
        decreases b - i,
    {
        let ch = v[i];
        proof {
            assert(t[i - s] == v@[i as int]);
            lemma_depth_push(t, i - s);
            assert(t.take(0) =~= Seq::<char>::empty());
        }
        if in_str {
            if esc {
                esc = false;
            } else if ch == '\\' {
                esc = true;
            } else if ch == '"' {
                in_str = false;
            }
        } else if ch == '"' {
            in_str = true;
        } else if ch == '{' {
            depth = depth + 1;
        } else if ch == '}' {
            depth = depth - 1;
            if depth == 0 {
                proof {
                    assert(first_balanced_from(t, (i - s) + 1) == Some((i - s) + 1));
                }
                let r = raw.substring_char(s, i + 1);
                assert(r@ =~= c.subrange(s - a, s - a + (i - s) + 1));
                return Some(r);
            }
        }
        proof {
            if i - s >= 1 {
                lemma_first_balanced_skip(t, (i - s) + 1);
            } else {
                lemma_first_balanced_skip(t, 1);
            }
        }
        i += 1;
    }
    proof {
        assert(first_balanced_from(t, (i - s) + 1) is None);
    }
    None
}

// ───────────────────────── laws ─────────────────────────

proof fn lemma_first_balanced_props(t: Seq<char>, from: int)
    requires
        1 <= from,
    ensures
        match first_balanced_from(t, from) {
            Some(k) => from <= k <= t.len() && brace_depth(t.take(k)) == 0 && forall|j: int|
                from <= j < k ==> brace_depth(#[trigger] t.take(j)) != 0,
            None => forall|j: int| from <= j <= t.len() ==> brace_depth(#[trigger] t.take(j)) != 0,
        },
    decreases t.len() + 1 - from,
{
    if from <= t.len() && brace_depth(t.take(from)) != 0 {
        lemma_first_balanced_props(t, from + 1);
    }
}

proof fn lemma_depth_positive(t: Seq<char>, k: int)
    requires
        1 <= k <= t.len(),
        t[0] == '{',
        forall|j: int| 1 <= j < k ==> brace_depth(#[trigger] t.take(j)) != 0,
    ensures
        forall|j: int| 1 <= j < k ==> brace_depth(#[trigger] t.take(j)) >= 1,
    decreases k,
{
    if k > 1 {
        lemma_depth_positive(t, k - 1);
        lemma_depth_push(t, k - 2);
        assert(t.take(0) =~= Seq::<char>::empty());
        if k - 1 == 1 {
            lemma_depth_push(t, 0);
        }
    }
}

/// What `extract_first_json_object` returns is a balanced brace group: it
/// starts with `{`, ends with a `}` outside any string literal, has as many
/// `}` as `{` outside string literals, and no proper prefix of it closes
/// more braces than it opens.
pub proof fn law_extracted_object_balanced(raw: Seq<char>)
    ensures
        first_json_object(raw) matches Some(o) ==> {
            &&& o.len() >= 2
            &&& o[0] == '{'
            &&& o.last() == '}'
            &&& brace_depth(o) == 0
            &&& !scan(o).1
            &&& forall|j: int| 1 <= j < o.len() ==> brace_depth(#[trigger] o.take(j)) >= 1
        },
{
    let c = clean_fences(raw);
    let s = find_char(c, '{');
    lemma_find_char_bounds(c, '{');
    if s < c.len() {
        let t = c.skip(s);
        lemma_first_balanced_props(t, 1);
        if let Some(k) = first_balanced_from(t, 1) {
            let o = c.subrange(s, s + k);
            assert(o =~= t.take(k));
            lemma_depth_positive(t, k);
            assert(t[0] == c[s]);
            lemma_depth_push(t, 0);
            assert(t.take(0) =~= Seq::<char>::empty());
            assert(brace_depth(t.take(1)) == 1);
            assert(k >= 2);
            lemma_depth_push(t, k - 1);
            assert(brace_depth(t.take(k - 1)) >= 1);
            assert(o.take(k) =~= o);
            assert forall|j: int| 1 <= j < o.len() implies brace_depth(#[trigger] o.take(j)) >= 1 by {
                assert(o.take(j) =~= t.take(j));
            }
        }
    }
}

/// Number of `"` in `s`.
pub open spec fn quote_count(s: Seq<char>) -> nat
    decreases s.len(),
{
    if s.len() == 0 {
        0
    } else {
        quote_count(s.drop_last()) + if s.last() == '"' {
            1nat
        } else {
            0nat
        }
    }
}

/// Reading `{` and then a stretch with no brace and no backslash: the depth
/// stays 1, and the reader is inside a string literal exactly when an odd
/// number of `"` has been read.
proof fn lemma_scan_flat(inner: Seq<char>, j: int)
    requires
        0 <= j <= inner.len(),
        forall|i: int|
            0 <= i < inner.len() ==> inner[i] != '{' && inner[i] != '}' && inner[i] != '\\',
    ensures
        scan((seq!['{'] + inner).take(j + 1)) == (1int, quote_count(inner.take(j)) % 2 == 1, false),
    decreases j,
{
    let t = seq!['{'] + inner;
    if j == 0 {
        lemma_depth_push(t, 0);
        assert(t.take(0) =~= Seq::<char>::empty());
        assert(inner.take(0) =~= Seq::<char>::empty());
    } else {
        lemma_scan_flat(inner, j - 1);
        lemma_depth_push(t, j);
        assert(t[j] == inner[j - 1]);
        assert(inner.take(j).drop_last() =~= inner.take(j - 1));
        assert(inner.take(j).last() == inner[j - 1]);
    }
}

proof fn lemma_clean_fences_object(o: Seq<char>)
    requires
        o.len() >= 2,
        o[0] == '{',
        o.last() == '}',
    ensures
        clean_fences(o) == o,
{
    reveal_strlit("```json");
    reveal_strlit("```");
    assert(!crate::text::is_ws('{'));
    assert(!crate::text::is_ws('}'));
    assert(crate::text::trim_start(o) == o);
    assert(crate::text::trim_end(o) == o);
    assert(trim(o) == o);
    if o.len() >= 7 {
        assert(o.subrange(0, 7)[0] != "```json"@[0]);
    }
    assert(strip_prefixes(o, "```json"@) == o);
    if o.len() >= 3 {
        assert(o.subrange(0, 3)[0] != "```"@[0]);
        assert(o.subrange(o.len() - 3, o.len() as int)[2] != "```"@[2]);
    }
    assert(strip_prefixes(o, "```"@) == o);
    assert(strip_suffixes(o, "```"@) == o);
}

/// Only `{` and `}` outside string literals open and close the object:
/// a reply that is exactly one JSON object with no object nested in it
/// and no escape in its strings is returned whole, whatever arrays,
/// strings, numbers and other brackets it holds.
pub proof fn law_flat_object_returned_whole(inner: Seq<char>)
    requires
        forall|i: int|
            0 <= i < inner.len() ==> inner[i] != '{' && inner[i] != '}' && inner[i] != '\\',
        quote_count(inner) % 2 == 0,
    ensures
        first_json_object(seq!['{'] + inner + seq!['}']) == Some(seq!['{'] + inner + seq!['}']),
{
    let t = seq!['{'] + inner;
    let o = t + seq!['}'];
    let n = inner.len() as int;
    lemma_clean_fences_object(o);
    lemma_find_char_at(o, '{', 0);
    assert(o.skip(0) =~= o);
    assert forall|k: int| 1 <= k <= n + 1 implies brace_depth(#[trigger] o.take(k)) != 0 by {
        assert(o.take(k) =~= t.take(k));
        lemma_scan_flat(inner, k - 1);
    }
    lemma_scan_flat(inner, n);
    assert(inner.take(n) =~= inner);
    assert(t.take(n + 1) =~= t);
    lemma_depth_push(o, n + 1);
    assert(o.take(n + 1) =~= t);
    assert(o.take(n + 2) =~= o);
    assert(brace_depth(o.take(n + 2)) == 0);
    lemma_first_balanced_props(o, 1);
    assert(o.subrange(0, n + 2) =~= o);
}

/// Reading `s` left to right from the state `st`.
pub open spec fn scan_from(st: (int, bool, bool), s: Seq<char>) -> (int, bool, bool)
    decreases s.len(),
{
    if s.len() == 0 {
        st
    } else {
        scan_from(scan_step(st, s[0]), s.drop_first())
    }
}

proof fn lemma_scan_from_push(st: (int, bool, bool), x: Seq<char>, c: char)
    ensures
        scan_from(st, x.push(c)) == scan_step(scan_from(st, x), c),
    decreases x.len(),
{
    if x.len() == 0 {
        assert(x.push(c).drop_first() =~= Seq::<char>::empty());
        assert(x.push(c)[0] == c);
        assert(scan_from(scan_step(st, c), Seq::<char>::empty()) == scan_step(st, c));
    } else {
        assert(x.push(c).drop_first() =~= x.drop_first().push(c));
        assert(x.push(c)[0] == x[0]);
        lemma_scan_from_push(scan_step(st, x[0]), x.drop_first(), c);
    }
}

proof fn lemma_scan_concat(a: Seq<char>, b: Seq<char>)
    ensures
        scan(a + b) == scan_from(scan(a), b),
    decreases b.len(),
{
    if b.len() == 0 {
        assert(a + b =~= a);
    } else {
        lemma_scan_concat(a, b.drop_last());
        assert((a + b).drop_last() =~= a + b.drop_last());
        assert(b.drop_last().push(b.last()) =~= b);
        lemma_scan_from_push(scan(a), b.drop_last(), b.last());
    }
}

/// The text between the braces of a JSON object with no object nested in
/// it: outside string literals no brace and no backslash; a `"` opens or
/// closes a literal; inside a literal a backslash escapes the character
/// after it, so `\"` does not close it and braces are just text.
pub open spec fn flat_object_text(s: Seq<char>, in_str: bool) -> bool
    decreases s.len(),
{
    if s.len() == 0 {
        !in_str
    } else if in_str {
        if s[0] == '\\' {
            s.len() >= 2 && flat_object_text(s.skip(2), true)
        } else if s[0] == '"' {
            flat_object_text(s.drop_first(), false)
        } else {
            flat_object_text(s.drop_first(), true)
        }
    } else if s[0] == '"' {
        flat_object_text(s.drop_first(), true)
    } else {
        s[0] != '{' && s[0] != '}' && s[0] != '\\' && flat_object_text(s.drop_first(), false)
    }
}

proof fn lemma_scan_flat_text(s: Seq<char>, in_str: bool)
    requires
        flat_object_text(s, in_str),
    ensures
        forall|j: int| 0 <= j <= s.len() ==> (#[trigger] scan_from((1, in_str, false), s.take(j))).0 == 1,
        scan_from((1, in_str, false), s) == (1int, false, false),
    decreases s.len(),
{
    let st = (1int, in_str, false);
    if s.len() == 0 {
        assert(s.take(0) =~= s);
    } else if in_str && s[0] == '\\' {
        let r = s.skip(2);
        lemma_scan_flat_text(r, true);
        assert(scan_step(st, s[0]) == (1int, true, true));
        assert(scan_step((1int, true, true), s[1]) == (1int, true, false));
        assert forall|j: int| 0 <= j <= s.len() implies (#[trigger] scan_from(st, s.take(j))).0 == 1 by {
            if j == 0 {
                assert(s.take(0).len() == 0);
            } else if j == 1 {
                assert(s.take(1).drop_first() =~= Seq::<char>::empty());
                assert(s.take(1)[0] == s[0]);
                assert(scan_from(st, s.take(1)) == scan_from((1int, true, true), s.take(1).drop_first()));
            } else {
                let x = s.take(j);
                let y = s.drop_first().take(j - 1);
                assert(x.drop_first() =~= y);
                assert(x[0] == s[0]);
                assert(y.drop_first() =~= r.take(j - 2));
                assert(y[0] == s[1]);
                assert(scan_from(st, x) == scan_from((1int, true, true), y));
                assert(scan_from((1int, true, true), y) == scan_from((1int, true, false), r.take(j - 2)));
            }
        }
        assert(s.drop_first().drop_first() =~= r);
        assert(s.drop_first()[0] == s[1]);
        assert(scan_from(st, s) == scan_from((1int, true, true), s.drop_first()));
        assert(scan_from((1int, true, true), s.drop_first()) == scan_from((1int, true, false), r));
        assert(s.take(s.len() as int) =~= s);
    } else {
        let nst = scan_step(st, s[0]);
        let r = s.drop_first();
        let ns = !in_str && s[0] == '"' || in_str && s[0] != '"';
        assert(nst == (1int, ns, false));
        lemma_scan_flat_text(r, ns);
        assert forall|j: int| 0 <= j <= s.len() implies (#[trigger] scan_from(st, s.take(j))).0 == 1 by {
            if j > 0 {
                assert(s.take(j).drop_first() =~= r.take(j - 1));
                assert(s.take(j)[0] == s[0]);
                assert(scan_from(st, s.take(j)) == scan_from(nst, r.take(j - 1)));
            } else {
                assert(s.take(0).len() == 0);
            }
        }
        assert(s.take(s.len() as int) =~= s);
        assert(r.take(r.len() as int) =~= r);
        assert(scan_from(st, s) == scan_from(nst, r));
    }
}

/// Braces inside string literals, escaped quotes included, do not count:
/// a reply that is exactly one JSON object with no object nested in it is
/// returned whole, whatever its strings hold.
pub proof fn law_object_with_strings_returned_whole(inner: Seq<char>)
    requires
        flat_object_text(inner, false),
    ensures
        first_json_object(seq!['{'] + inner + seq!['}']) == Some(seq!['{'] + inner + seq!['}']),
{
    let t = seq!['{'] + inner;
    let o = t + seq!['}'];
    let n = inner.len() as int;
    lemma_clean_fences_object(o);
    lemma_find_char_at(o, '{', 0);
    assert(o.skip(0) =~= o);
    lemma_scan_flat_text(inner, false);
    let open = seq!['{'];
    assert(open.drop_last() =~= Seq::<char>::empty());
    assert(open.last() == '{');
    assert(scan(Seq::<char>::empty()) == (0int, false, false));
    assert(scan(open) == (1int, false, false));
    assert forall|k: int| 1 <= k <= n + 1 implies brace_depth(#[trigger] o.take(k)) != 0 by {
        assert(o.take(k) =~= open + inner.take(k - 1));
        lemma_scan_concat(open, inner.take(k - 1));
        assert(scan_from((1int, false, false), inner.take(k - 1)).0 == 1);
    }
    lemma_scan_concat(open, inner);
    assert(inner.take(n) =~= inner);
    assert(scan(t) == (1int, false, false));
    lemma_depth_push(o, n + 1);
    assert(o.take(n + 1) =~= t);
    assert(o.take(n + 2) =~= o);
    assert(brace_depth(o.take(n + 2)) == 0);
    lemma_first_balanced_props(o, 1);
    assert(o.subrange(0, n + 2) =~= o);
}

proof fn lemma_put_all_get(es: Seq<(Seq<char>, String)>, new: Seq<(Seq<char>, String)>, q: Seq<char>)
    requires
        crate::keys::unique_keys(crate::strmap::entry_keys(new)),
    ensures
        entry_get(put_all(es, new), q) == if crate::strmap::entry_keys(new).contains(q) {
            entry_get(new, q)
        } else {
            entry_get(es, q)
        },
    decreases new.len(),
{
    if new.len() > 0 {
        let init = new.drop_last();
        let ks = crate::strmap::entry_keys(new);
        let ki = crate::strmap::entry_keys(init);
        assert(ki =~= ks.drop_last());
        lemma_put_all_get(es, init, q);
        crate::strmap::law_put_get(put_all(es, init), new.last().0, new.last().1, q);
        crate::keys::lemma_first_index(ks, q);
        crate::keys::lemma_first_index(ki, q);
        let n = new.len() - 1;
        if q == new.last().0 {
            assert(ks[n] == q);
            assert(forall|m: int| 0 <= m < n ==> ks[m] != ks[n]);
            crate::keys::lemma_first_index_at(ks, q, n);
            assert(!ki.contains(q)) by {
                if ki.contains(q) {
                    let m = choose|m: int| 0 <= m < ki.len() && ki[m] == q;
                    assert(ks[m] == q);
                }
            }
        } else {
            assert(ks.contains(q) == ki.contains(q)) by {
                if ks.contains(q) {
                    let m = choose|m: int| 0 <= m < ks.len() && ks[m] == q;
                    assert(m < n);
                    assert(ki[m] == q);
                }
                if ki.contains(q) {
                    let m = choose|m: int| 0 <= m < ki.len() && ki[m] == q;
                    assert(ks[m] == q);
                }
            }
            if ki.contains(q) {
                let f = crate::keys::first_index(ki, q);
                assert forall|m: int| 0 <= m < f implies ks[m] != q by {
                    assert(ks[m] == ki[m]);
                }
                crate::keys::lemma_first_index_at(ks, q, f);
            }
        }
    }
}

/// After a panel pass, each panel the model sent reads back as sent, and
/// every other panel is as it was.
pub proof fn law_panel_pass_updates(
    old_panels: Seq<(Seq<char>, String)>,
    found: Seq<(Seq<char>, String)>,
    q: Seq<char>,
)
    requires
        crate::keys::sorted_keys(crate::strmap::entry_keys(found)),
    ensures
        entry_get(put_all(old_panels, found), q) == if crate::strmap::entry_keys(found).contains(q) {
            entry_get(found, q)
        } else {
            entry_get(old_panels, q)
        },
{
    crate::keys::lemma_sorted_unique(crate::strmap::entry_keys(found));
    lemma_put_all_get(old_panels, found, q);
}

} // verus!
