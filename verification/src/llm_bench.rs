//! The LLM bench: the state prompt it sends, the request it makes of a local
//! Ollama, and how it judges the model's answer.

use vstd::prelude::*;
use vstd::utf8::encode_utf8;
use crate::text::{chars_of, string_from_chars, slice_chars, trim, replace, replace_all, trimmed, to_string};
use crate::gemma::{
    byte_tail, tail_cut_ok, transcript_tail, clean_fences, find_char, clean_fences_bounds,
    find_char_from, lemma_find_char_bounds, STATE_TAIL_BYTES,
};
use crate::json::{JsonValue, JsonView, field, jv_entries, lemma_jv_entries};
use crate::fmt::{dec, dec_int, u64_text, i64_text};

verus! {

/// How the LLM worker mode is started.
pub struct WorkerOpts {
    /// Path to the model file.
    pub model: String,
    pub n_ctx: u32,
    pub gpu_layers: u32,
}

/// Token cap of a generate request that names none.
pub fn default_max_tokens() -> (r: i32)
    ensures
        r == 500,
{
    500
}

// ───────────────────────── the prompt ─────────────────────────

/// The bench prompt: the template with an empty current state, the trimmed
/// party data and the trimmed transcript tail filled in, in that order.
pub open spec fn bench_prompt_text(template: Seq<char>, party: Seq<char>, tail: Seq<char>) -> Seq<
    char,
> {
    replace_all(
        replace_all(replace_all(template, "{CURRENT_STATE}"@, "{}"@), "{PARTY_DATA}"@, trim(party)),
        "{TRANSCRIPT}"@,
        trim(tail),
    )
}

/// Fill the state prompt template from the sample files: the transcript
/// contributes its last 2000 bytes.
pub fn bench_prompt(template: &str, transcript: &str, party: &str) -> (r: String)
    requires
        tail_cut_ok(transcript@, STATE_TAIL_BYTES as nat),
    ensures
        exists|tail: Seq<char>|
            encode_utf8(tail) == byte_tail(encode_utf8(transcript@), STATE_TAIL_BYTES as nat)
                && r@ == bench_prompt_text(template@, party@, tail),
{
    proof {
        reveal_strlit("{CURRENT_STATE}");
        reveal_strlit("{PARTY_DATA}");
        reveal_strlit("{TRANSCRIPT}");
    }
    let tail = transcript_tail(transcript, STATE_TAIL_BYTES);
    let a = replace(template, "{CURRENT_STATE}", "{}");
    let p = trimmed(party);
    let b = replace(a.as_str(), "{PARTY_DATA}", p.as_str());
    let t = trimmed(tail.as_str());
    let r = replace(b.as_str(), "{TRANSCRIPT}", t.as_str());
    assert(r@ == bench_prompt_text(template@, party@, tail@));
    r
}

// ───────────────────────── Ollama ─────────────────────────

/// The Ollama generate endpoint under `base`.
pub fn ollama_url(base: &str) -> (r: String)
    ensures
        r@ == base@ + "/api/generate"@,
{
    let mut r = to_string(base);
    r.append("/api/generate");
    r
}

/// The body of the Ollama request, keys in `serde_json`'s order; numbers
/// are held as the text `serde_json` writes for them.
pub open spec fn ollama_body_view(
    model: Seq<char>,
    prompt: Seq<char>,
    system: Seq<char>,
    n_ctx: nat,
    max_tokens: int,
) -> JsonView {
    JsonView::Object(
        seq![
            ("model"@, JsonView::Str(model)),
            (
                "options"@,
                JsonView::Object(
                    seq![
                        ("num_ctx"@, JsonView::Number(dec(n_ctx))),
                        ("num_predict"@, JsonView::Number(dec_int(max_tokens))),
                        ("repeat_penalty"@, JsonView::Number("1.1"@)),
                        ("temperature"@, JsonView::Number("0.1"@)),
                        ("top_k"@, JsonView::Number("20"@)),
                        ("top_p"@, JsonView::Number("0.9"@)),
                    ],
                ),
            ),
            ("prompt"@, JsonView::Str(prompt)),
            ("stream"@, JsonView::Bool(false)),
            ("system"@, JsonView::Str(system)),
        ],
    )
}

/// The non-streaming generate request: near-greedy sampling, the context
/// size and token cap given.
pub fn ollama_body(model: &str, prompt: &str, system: &str, n_ctx: u32, max_tokens: i32) -> (r:
    JsonValue)
    ensures
        r@ == ollama_body_view(model@, prompt@, system@, n_ctx as nat, max_tokens as int),
{
    let mut opts: Vec<(String, JsonValue)> = Vec::new();
    opts.push((to_string("num_ctx"), JsonValue::Number(u64_text(n_ctx as u64))));
    opts.push((to_string("num_predict"), JsonValue::Number(i64_text(max_tokens as i64))));
    opts.push((to_string("repeat_penalty"), JsonValue::Number(to_string("1.1"))));
    opts.push((to_string("temperature"), JsonValue::Number(to_string("0.1"))));
    opts.push((to_string("top_k"), JsonValue::Number(to_string("20"))));
    opts.push((to_string("top_p"), JsonValue::Number(to_string("0.9"))));
    let ghost ov = seq![
        ("num_ctx"@, JsonView::Number(dec(n_ctx as nat))),
        ("num_predict"@, JsonView::Number(dec_int(max_tokens as int))),
        ("repeat_penalty"@, JsonView::Number("1.1"@)),
        ("temperature"@, JsonView::Number("0.1"@)),
        ("top_k"@, JsonView::Number("20"@)),
        ("top_p"@, JsonView::Number("0.9"@)),
    ];
    proof {
        lemma_jv_entries(opts@);
        assert(jv_entries(opts@) =~= ov);
    }
    let o = JsonValue::Object(opts);
    let mut es: Vec<(String, JsonValue)> = Vec::new();
    es.push((to_string("model"), JsonValue::Str(to_string(model))));
    es.push((to_string("options"), o));
    es.push((to_string("prompt"), JsonValue::Str(to_string(prompt))));
    es.push((to_string("stream"), JsonValue::Bool(false)));
    es.push((to_string("system"), JsonValue::Str(to_string(system))));
    proof {
        lemma_jv_entries(es@);
        assert(jv_entries(es@) =~= seq![
            ("model"@, JsonView::Str(model@)),
            ("options"@, JsonView::Object(ov)),
            ("prompt"@, JsonView::Str(prompt@)),
            ("stream"@, JsonView::Bool(false)),
            ("system"@, JsonView::Str(system@)),
        ]);
    }
    JsonValue::Object(es)
}

// ───────────────────────── judging the answer ─────────────────────────

/// Index of the last `c` in `s`, or -1.
pub open spec fn rfind_char(s: Seq<char>, c: char) -> int
    decreases s.len(),
{
    if s.len() == 0 {
        -1
    } else if s.last() == c {
        s.len() - 1
    } else {
        rfind_char(s.drop_last(), c)
    }
}

/// The candidate JSON text in a model answer: with code fences and
/// whitespace removed, from the first `{` through the last `}`, when the
/// last `}` comes after the first `{`.
pub open spec fn object_span(raw: Seq<char>) -> Option<Seq<char>> {
    let c = clean_fences(raw);
    let s = find_char(c, '{');
    let e = rfind_char(c, '}');
    if s < c.len() && e > s {
        Some(c.subrange(s, e + 1))
    } else {
        None
    }
}

pub(crate) fn rfind_char_in(v: &Vec<char>, c: char) -> (r: Option<usize>)
    ensures
        match r {
            Some(i) => rfind_char(v@, c) == i && i < v.len(),
            None => rfind_char(v@, c) == -1,
        },
{
    let mut i = v.len();
    assert(v@.take(i as int) =~= v@);
    while i > 0
        invariant
            i <= v.len(),
            rfind_char(v@, c) == rfind_char(v@.take(i as int), c),
        decreases i,
    {
        assert(v@.take(i as int).last() == v@[i - 1]);
        if v[i - 1] == c {
            return Some(i - 1);
        }
        assert(v@.take(i as int).drop_last() =~= v@.take(i - 1));
        i -= 1;
    }
    None
}

/// The span of the answer that should hold the JSON object (see
/// `object_span`).
pub fn json_slice(raw: &str) -> (r: Option<String>)
    ensures
        match r {
            Some(s) => object_span(raw@) == Some(s@),
            None => object_span(raw@) is None,
        },
{
    let v = chars_of(raw);
    let (a, b) = clean_fences_bounds(&v);
    let c = slice_chars(&v, a, b);
    let s = find_char_from(&c, 0, '{');
    proof {
        assert(c@.skip(0) =~= c@);
        lemma_find_char_bounds(c@, '{');
    }
    match rfind_char_in(&c, '}') {
        Some(e) => {
            if s < c.len() && e > s {
                let t = slice_chars(&c, s, e + 1);
                Some(string_from_chars(t.as_slice()))
            } else {
                None
            }
        },
        None => None,
    }
}

/// What the bench reports of a parsed state: whether it has a location and
/// characters, and how many entries the characters object has.
pub struct StateSummary {
    pub has_location: bool,
    pub has_characters: bool,
    pub n_characters: usize,
}

/// Number of entries of `v` when it is an object, else 0.
pub open spec fn object_len(v: Option<JsonView>) -> nat {
    match v {
        Some(JsonView::Object(es)) => es.len(),
        _ => 0,
    }
}

/// Summarize a parsed state object.
pub fn summarize_state(v: &JsonValue) -> (r: StateSummary)
    ensures
        r.has_location == field(v@, "location"@) is Some,
        r.has_characters == field(v@, "characters"@) is Some,
        r.n_characters == object_len(field(v@, "characters"@)),
{
    let has_location = crate::json::get_field(v, "location").is_some();
    let ch = crate::json::get_field(v, "characters");
    let has_characters = ch.is_some();
    let n_characters = match ch {
        Some(JsonValue::Object(es)) => {
            proof {
                lemma_jv_entries(es@);
            }
            es.len()
        },
        _ => 0,
    };
    StateSummary { has_location, has_characters, n_characters }
}

} // verus!
