//! The protocol spoken with the LLM and STT worker processes.
//!
//! Workers read one JSON request per line and answer one JSON reply per
//! line. Every request carries a unique `id` that the reply echoes. Running
//! the child processes and moving the lines is the program's job; what goes
//! into a request and what a reply means is decided here.

use vstd::prelude::*;
use crate::fmt::{
    dec, dec_int, hex, pad_left, u64_text, i64_text, hex_padded, law_dec_injective, is_hex_digit,
    pow16, lemma_hex_len, lemma_pad_hex,
};
use crate::json::{
    JsonValue, JsonView, Entries, jv_entries, lemma_jv_entries, merge_entry, str_field, get_str,
    object_insert, law_insert_then_lookup, field, ekeys,
};
use crate::keys::lemma_first_index_at;
use crate::text::{to_string, str_eq};
use crate::strmap::{StrMap, entry_get, entry_put, entry_remove, entry_keys, law_put_get, law_remove_get, lemma_put_sorted};
use crate::keys::sorted_keys;

verus! {

// ───────────────────────── ids and tokens ─────────────────────────

/// The id of request number `n`.
pub open spec fn request_id(n: nat) -> Seq<char> {
    "r"@ + dec(n)
}

/// The counter after one step: it wraps at the top, as an atomic add does.
pub open spec fn counter_step(n: u64) -> u64 {
    if n == u64::MAX {
        0
    } else {
        (n + 1) as u64
    }
}

/// Hand out the next request id and advance `counter`.
pub fn next_id(counter: &mut u64) -> (id: String)
    ensures
        id@ == request_id(*old(counter) as nat),
        *final(counter) == counter_step(*old(counter)),
{
    let n = *counter;
    *counter = if n == u64::MAX {
        0
    } else {
        n + 1
    };
    let mut s = to_string("r");
    let d = u64_text(n);
    s.append(d.as_str());
    s
}

/// Request numbers that differ give ids that differ, so two requests in
/// flight are never confused.
pub proof fn law_request_ids_distinct(a: nat, b: nat)
    requires
        a != b,
    ensures
        request_id(a) != request_id(b),
{
    if request_id(a) == request_id(b) {
        reveal_strlit("r");
        assert(dec(a) =~= request_id(a).skip(1));
        assert(dec(b) =~= request_id(b).skip(1));
        law_dec_injective(a, b);
    }
}

/// A file-name token: the time in microseconds as 16 hex digits, a dash,
/// and the counter as (at least) 8 hex digits.
pub open spec fn token_text(now_us: u64, n: u64) -> Seq<char> {
    pad_left(hex(now_us as nat), 16, '0') + "-"@ + pad_left(hex(n as nat), 8, '0')
}

/// A token unique within the process, from the clock reading `now_us`
/// (microseconds since the epoch, 0 when the clock is before it) and
/// `counter`, which advances.
pub fn uuid_simple(now_us: u64, counter: &mut u64) -> (r: String)
    ensures
        r@ == token_text(now_us, *old(counter)),
        *final(counter) == counter_step(*old(counter)),
{
    let n = *counter;
    *counter = if n == u64::MAX {
        0
    } else {
        n + 1
    };
    let mut s = hex_padded(now_us, 16);
    s.append("-");
    let t = hex_padded(n, 8);
    s.append(t.as_str());
    s
}

proof fn lemma_dash_split(a1: Seq<char>, b1: Seq<char>, a2: Seq<char>, b2: Seq<char>)
    requires
        forall|i: int| 0 <= i < a1.len() ==> a1[i] != '-',
        forall|i: int| 0 <= i < a2.len() ==> a2[i] != '-',
        a1 + seq!['-'] + b1 == a2 + seq!['-'] + b2,
    ensures
        a1 == a2,
        b1 == b2,
{
    let x = a1 + seq!['-'] + b1;
    let y = a2 + seq!['-'] + b2;
    if a1.len() < a2.len() {
        assert(x[a1.len() as int] == '-');
        assert(y[a1.len() as int] == a2[a1.len() as int]);
    } else if a2.len() < a1.len() {
        assert(y[a2.len() as int] == '-');
        assert(x[a2.len() as int] == a1[a2.len() as int]);
    }
    assert(a1 =~= x.take(a1.len() as int));
    assert(a2 =~= y.take(a2.len() as int));
    assert(b1 =~= x.skip(a1.len() as int + 1));
    assert(b2 =~= y.skip(a2.len() as int + 1));
}

/// Tokens made with different counter values differ, whatever the clock
/// said: the counter part after the only dash reads back as the counter.
pub proof fn law_tokens_distinct(t1: u64, n1: u64, t2: u64, n2: u64)
    requires
        n1 != n2,
    ensures
        token_text(t1, n1) != token_text(t2, n2),
{
    reveal_strlit("-");
    lemma_pad_hex(t1 as nat, 16);
    lemma_pad_hex(t2 as nat, 16);
    lemma_pad_hex(n1 as nat, 8);
    lemma_pad_hex(n2 as nat, 8);
    let a1 = pad_left(hex(t1 as nat), 16, '0');
    let a2 = pad_left(hex(t2 as nat), 16, '0');
    let b1 = pad_left(hex(n1 as nat), 8, '0');
    let b2 = pad_left(hex(n2 as nat), 8, '0');
    assert("-"@ =~= seq!['-']);
    if token_text(t1, n1) == token_text(t2, n2) {
        assert forall|i: int| 0 <= i < a1.len() implies a1[i] != '-' by {
            assert(is_hex_digit(a1[i]));
        }
        assert forall|i: int| 0 <= i < a2.len() implies a2[i] != '-' by {
            assert(is_hex_digit(a2[i]));
        }
        lemma_dash_split(a1, b1, a2, b2);
    }
}

/// A token made while the counter is below `2^32` has the shape
/// `[0-9a-f]{16}-[0-9a-f]{8}`.
pub proof fn law_token_shape(now_us: u64, n: u64)
    requires
        n < 0x1_0000_0000,
    ensures
        token_text(now_us, n).len() == 25,
        token_text(now_us, n)[16] == '-',
        forall|i: int|
            0 <= i < 25 && i != 16 ==> is_hex_digit(#[trigger] token_text(now_us, n)[i]),
{
    reveal_strlit("-");
    assert(pow16(16) == 0x1_0000_0000_0000_0000 && pow16(8) == 0x1_0000_0000) by {
        reveal_with_fuel(pow16, 17);
    }
    lemma_hex_len(now_us as nat, 16);
    lemma_hex_len(n as nat, 8);
    lemma_pad_hex(now_us as nat, 16);
    lemma_pad_hex(n as nat, 8);
    let a = pad_left(hex(now_us as nat), 16, '0');
    let b = pad_left(hex(n as nat), 8, '0');
    let t = token_text(now_us, n);
    assert("-"@ =~= seq!['-']);
    assert forall|i: int| 0 <= i < 25 && i != 16 implies is_hex_digit(#[trigger] t[i]) by {
        if i < 16 {
            assert(t[i] == a[i]);
        } else {
            assert(t[i] == b[i - 17]);
        }
    }
}

// ───────────────────────── requests ─────────────────────────

/// Tag a request object with its `id`; anything but an object is refused.
pub fn tag_request(req: JsonValue, id: String) -> (r: Result<JsonValue, String>)
    ensures
        match req@ {
            JsonView::Object(es) => r matches Ok(t) && t@ == JsonView::Object(
                merge_entry(es, "id"@, JsonView::Str(id@), JsonView::Str(id@)),
            ),
            _ => r matches Err(m) && m@ == "request must be a JSON object"@,
        },
{
    match req {
        JsonValue::Object(es) => {
            let mut es = es;
            let k = to_string("id");
            object_insert(&mut es, k, JsonValue::Str(id));
            Ok(JsonValue::Object(es))
        },
        _ => Err(to_string("request must be a JSON object")),
    }
}

/// A tagged request carries its id: reading `id` back from it gives the id
/// it was tagged with, whatever the request held before.
pub proof fn law_tagged_request_carries_id(es: Entries, id: Seq<char>)
    ensures
        str_field(
            JsonView::Object(merge_entry(es, "id"@, JsonView::Str(id), JsonView::Str(id))),
            "id"@,
        ) == Some(id),
{
    law_insert_then_lookup(es, "id"@, JsonView::Str(id));
}

/// The error a reply stands for: a reply of type `error` fails the request
/// with its message, or with "(no message)".
pub open spec fn reply_error(name: Seq<char>, resp: JsonView) -> Option<Seq<char>> {
    if str_field(resp, "type"@) == Some("error"@) {
        Some(
            name + " worker error: "@ + match str_field(resp, "message"@) {
                Some(m) => m,
                None => "(no message)"@,
            },
        )
    } else {
        None
    }
}

/// Check a worker's reply: an `error` reply becomes the error, any other
/// reply is handed back.
pub fn check_reply(name: &str, resp: JsonValue) -> (r: Result<JsonValue, String>)
    ensures
        match reply_error(name@, resp@) {
            Some(m) => r matches Err(e) && e@ == m,
            None => r matches Ok(v) && v@ == resp@,
        },
{
    let t = get_str(&resp, "type");
    let is_error = match &t {
        Some(s) => str_eq(s.as_str(), "error"),
        None => false,
    };
    if is_error {
        let mut e = to_string(name);
        e.append(" worker error: ");
        match get_str(&resp, "message") {
            Some(m) => e.append(m.as_str()),
            None => e.append("(no message)"),
        }
        Err(e)
    } else {
        Ok(resp)
    }
}

/// What `format!("{:?}", o)` gives for an optional string slice.
pub uninterp spec fn debug_opt_str(o: Option<Seq<char>>) -> Seq<char>;

/// `format!("{:?}", o)` of std: `None`, or `Some(..)` around the string in
/// Rust's quoted and escaped form. The contract names the result and states
/// the `None` case; the escaping of `Some` is left to the name.
#[verifier::external_body]
fn debug_opt_text(o: Option<&str>) -> (r: String)
    ensures
        o is None ==> r@ == "None"@,
        r@ == debug_opt_str(
            match o {
                Some(s) => Some(s@),
                None => None,
            },
        ),
{
    format!("{:?}", o)
}

/// The error for a ping answered with something else, given how that
/// answer's type prints.
pub fn pong_mismatch(shown: &str) -> (r: String)
    ensures
        r@ == "expected pong, got "@ + shown@,
{
    let mut e = to_string("expected pong, got ");
    e.append(shown);
    e
}

/// Check the reply to a ping: it must be of type `pong`.
pub fn check_pong(resp: &JsonValue) -> (r: Result<(), String>)
    ensures
        str_field(resp@, "type"@) == Some("pong"@) <==> r is Ok,
        r matches Err(e) ==> e@ == "expected pong, got "@ + debug_opt_str(
            str_field(resp@, "type"@),
        ),
        str_field(resp@, "type"@) is None ==> (r matches Err(e) && e@ == "expected pong, got None"@),
{
    let t = get_str(resp, "type");
    match t {
        Some(s) => {
            if str_eq(s.as_str(), "pong") {
                Ok(())
            } else {
                let shown = debug_opt_text(Some(s.as_str()));
                Err(pong_mismatch(shown.as_str()))
            }
        },
        None => {
            let shown = debug_opt_text(None);
            let e = pong_mismatch(shown.as_str());
            proof {
                reveal_strlit("expected pong, got ");
                reveal_strlit("None");
                reveal_strlit("expected pong, got None");
                assert(e@ =~= "expected pong, got None"@);
            }
            Err(e)
        },
    }
}

/// The id a reply line carries, if it carries one as a string.
pub fn reply_id(resp: &JsonValue) -> (r: Option<String>)
    ensures
        r matches Some(s) ==> str_field(resp@, "id"@) == Some(s@),
        r is None ==> str_field(resp@, "id"@) is None,
{
    get_str(resp, "id")
}

/// Where a reply line goes.
pub enum ReplyRoute<W> {
    /// It carries no string `id`: it is dropped.
    NoId,
    /// No request waits for this id.
    Unknown(String),
    /// The waiter of the request it answers.
    Deliver(W),
}

/// Route a reply to the request waiting for its id, taking that waiter out
/// of `pending` (a request is answered once).
pub fn route_reply<W>(pending: &mut StrMap<W>, reply: &JsonValue) -> (r: ReplyRoute<W>)
    ensures
        match str_field(reply@, "id"@) {
            None => r is NoId && final(pending)@ == old(pending)@,
            Some(id) => final(pending)@ == entry_remove(old(pending)@, id) && match entry_get(
                old(pending)@,
                id,
            ) {
                Some(w) => r == ReplyRoute::Deliver(w),
                None => r matches ReplyRoute::Unknown(s) && s@ == id,
            },
        },
{
    match reply_id(reply) {
        None => ReplyRoute::NoId,
        Some(id) => match pending.remove(id.as_str()) {
            Some(w) => ReplyRoute::Deliver(w),
            None => ReplyRoute::Unknown(id),
        },
    }
}

/// A reply reaches the request that registered its id, and only once: after
/// delivery nothing waits under that id, while the other waiters stay.
pub proof fn law_reply_reaches_its_request<W>(
    pending: Seq<(Seq<char>, W)>,
    id: Seq<char>,
    w: W,
    other: Seq<char>,
)
    requires
        sorted_keys(entry_keys(pending)),
    ensures
        entry_get(entry_put(pending, id, w), id) == Some(w),
        entry_get(entry_remove(entry_put(pending, id, w), id), id) is None,
        other != id ==> entry_get(entry_remove(entry_put(pending, id, w), id), other)
            == entry_get(pending, other),
{
    law_put_get(pending, id, w, id);
    lemma_put_sorted(pending, id, w);
    law_remove_get(entry_put(pending, id, w), id, id);
    law_remove_get(entry_put(pending, id, w), id, other);
    law_put_get(pending, id, w, other);
}

/// `{"type": "ping"}`.
pub fn ping_request() -> (r: JsonValue)
    ensures
        r@ == JsonView::Object(seq![("type"@, JsonView::Str("ping"@))]),
{
    let mut es: Vec<(String, JsonValue)> = Vec::new();
    es.push((to_string("type"), JsonValue::Str(to_string("ping"))));
    proof {
        lemma_jv_entries(es@);
        assert(jv_entries(es@) =~= seq![("type"@, JsonView::Str("ping"@))]);
    }
    JsonValue::Object(es)
}

/// The generate request: keys in the order `serde_json` keeps them.
pub open spec fn generate_view(system: Seq<char>, prompt: Seq<char>, max_tokens: int) -> JsonView {
    JsonView::Object(
        seq![
            ("max_tokens"@, JsonView::Number(dec_int(max_tokens))),
            ("prompt"@, JsonView::Str(prompt)),
            ("system"@, JsonView::Str(system)),
            ("type"@, JsonView::Str("generate"@)),
        ],
    )
}

/// `{"type": "generate", "system": .., "prompt": .., "max_tokens": ..}`.
pub fn generate_request(system: &str, prompt: &str, max_tokens: i32) -> (r: JsonValue)
    ensures
        r@ == generate_view(system@, prompt@, max_tokens as int),
{
    let mut es: Vec<(String, JsonValue)> = Vec::new();
    es.push((to_string("max_tokens"), JsonValue::Number(i64_text(max_tokens as i64))));
    es.push((to_string("prompt"), JsonValue::Str(to_string(prompt))));
    es.push((to_string("system"), JsonValue::Str(to_string(system))));
    es.push((to_string("type"), JsonValue::Str(to_string("generate"))));
    proof {
        lemma_jv_entries(es@);
        assert(jv_entries(es@) =~= seq![
            ("max_tokens"@, JsonView::Number(dec_int(max_tokens as int))),
            ("prompt"@, JsonView::Str(prompt@)),
            ("system"@, JsonView::Str(system@)),
            ("type"@, JsonView::Str("generate"@)),
        ]);
    }
    JsonValue::Object(es)
}

/// The transcribe request: keys in the order `serde_json` keeps them.
pub open spec fn transcribe_view(
    audio_path: Seq<char>,
    format: Seq<char>,
    language: Seq<char>,
    delete_after: bool,
) -> JsonView {
    JsonView::Object(
        seq![
            ("audio_path"@, JsonView::Str(audio_path)),
            ("delete_after"@, JsonView::Bool(delete_after)),
            ("format"@, JsonView::Str(format)),
            ("language"@, JsonView::Str(language)),
            ("type"@, JsonView::Str("transcribe"@)),
        ],
    )
}

/// `{"type": "transcribe", "audio_path": .., "format": .., "language": ..,
/// "delete_after": ..}`: the worker reads the file and deletes it after only
/// when `delete_after` is set.
pub fn transcribe_request(audio_path: &str, format: &str, language: &str, delete_after: bool) -> (r:
    JsonValue)
    ensures
        r@ == transcribe_view(audio_path@, format@, language@, delete_after),
{
    let mut es: Vec<(String, JsonValue)> = Vec::new();
    es.push((to_string("audio_path"), JsonValue::Str(to_string(audio_path))));
    es.push((to_string("delete_after"), JsonValue::Bool(delete_after)));
    es.push((to_string("format"), JsonValue::Str(to_string(format))));
    es.push((to_string("language"), JsonValue::Str(to_string(language))));
    es.push((to_string("type"), JsonValue::Str(to_string("transcribe"))));
    proof {
        lemma_jv_entries(es@);
        assert(jv_entries(es@) =~= seq![
            ("audio_path"@, JsonView::Str(audio_path@)),
            ("delete_after"@, JsonView::Bool(delete_after)),
            ("format"@, JsonView::Str(format@)),
            ("language"@, JsonView::Str(language@)),
            ("type"@, JsonView::Str("transcribe"@)),
        ]);
    }
    JsonValue::Object(es)
}

/// What a worker reads out of a generate request: the system text under
/// `system`, the prompt under `prompt`, the token cap under `max_tokens`,
/// and `generate` under `type`.
pub proof fn law_generate_request_fields(system: Seq<char>, prompt: Seq<char>, max_tokens: int)
    ensures
        str_field(generate_view(system, prompt, max_tokens), "system"@) == Some(system),
        str_field(generate_view(system, prompt, max_tokens), "prompt"@) == Some(prompt),
        str_field(generate_view(system, prompt, max_tokens), "type"@) == Some("generate"@),
        field(generate_view(system, prompt, max_tokens), "max_tokens"@) == Some(
            JsonView::Number(dec_int(max_tokens)),
        ),
{
    reveal_strlit("max_tokens");
    reveal_strlit("prompt");
    reveal_strlit("system");
    reveal_strlit("type");
    let es: Entries = seq![
        ("max_tokens"@, JsonView::Number(dec_int(max_tokens))),
        ("prompt"@, JsonView::Str(prompt)),
        ("system"@, JsonView::Str(system)),
        ("type"@, JsonView::Str("generate"@)),
    ];
    let ks = ekeys(es);
    assert(ks =~= seq!["max_tokens"@, "prompt"@, "system"@, "type"@]);
    assert("max_tokens"@ != "prompt"@ && "max_tokens"@ != "system"@ && "max_tokens"@ != "type"@) by {
        assert("max_tokens"@.len() != "prompt"@.len());
        assert("max_tokens"@.len() != "system"@.len());
        assert("max_tokens"@.len() != "type"@.len());
    }
    assert("prompt"@ != "system"@) by {
        assert("prompt"@[0] != "system"@[0]);
    }
    assert("prompt"@ != "type"@ && "system"@ != "type"@) by {
        assert("prompt"@.len() != "type"@.len());
        assert("system"@.len() != "type"@.len());
    }
    lemma_first_index_at(ks, "max_tokens"@, 0);
    lemma_first_index_at(ks, "prompt"@, 1);
    lemma_first_index_at(ks, "system"@, 2);
    lemma_first_index_at(ks, "type"@, 3);
}

/// What a worker reads out of a transcribe request: the file under
/// `audio_path`, the format, the language, whether to delete the file, and
/// `transcribe` under `type`.
pub proof fn law_transcribe_request_fields(
    audio_path: Seq<char>,
    format: Seq<char>,
    language: Seq<char>,
    delete_after: bool,
)
    ensures
        str_field(transcribe_view(audio_path, format, language, delete_after), "audio_path"@)
            == Some(audio_path),
        str_field(transcribe_view(audio_path, format, language, delete_after), "format"@) == Some(
            format,
        ),
        str_field(transcribe_view(audio_path, format, language, delete_after), "language"@)
            == Some(language),
        field(transcribe_view(audio_path, format, language, delete_after), "delete_after"@)
            == Some(JsonView::Bool(delete_after)),
        str_field(transcribe_view(audio_path, format, language, delete_after), "type"@) == Some(
            "transcribe"@,
        ),
{
    reveal_strlit("audio_path");
    reveal_strlit("delete_after");
    reveal_strlit("format");
    reveal_strlit("language");
    reveal_strlit("type");
    let es: Entries = seq![
        ("audio_path"@, JsonView::Str(audio_path)),
        ("delete_after"@, JsonView::Bool(delete_after)),
        ("format"@, JsonView::Str(format)),
        ("language"@, JsonView::Str(language)),
        ("type"@, JsonView::Str("transcribe"@)),
    ];
    let ks = ekeys(es);
    assert(ks =~= seq!["audio_path"@, "delete_after"@, "format"@, "language"@, "type"@]);
    assert(ks[0][0] == 'a' && ks[1][0] == 'd' && ks[2][0] == 'f' && ks[3][0] == 'l' && ks[4][0]
        == 't');
    assert forall|i: int, j: int| 0 <= i < 5 && 0 <= j < 5 && i != j implies ks[i] != ks[j] by {
        assert(ks[i][0] != ks[j][0]);
    }
    lemma_first_index_at(ks, "audio_path"@, 0);
    lemma_first_index_at(ks, "delete_after"@, 1);
    lemma_first_index_at(ks, "format"@, 2);
    lemma_first_index_at(ks, "language"@, 3);
    lemma_first_index_at(ks, "type"@, 4);
}

// ───────────────────────── spawning ─────────────────────────

/// How to start the LLM worker.
pub struct LlmSpawnOpts {
    /// Path to the worker program.
    pub program: String,
    /// Path to the model file.
    pub model: String,
    pub n_ctx: u32,
    pub gpu_layers: u32,
    /// Further arguments, passed last.
    pub extra: Option<Vec<String>>,
}

/// How to start the STT worker.
pub struct SttSpawnOpts {
    pub program: String,
    pub model: String,
    pub threads: i32,
}

/// Character views of strings.
pub open spec fn arg_views(v: Seq<String>) -> Seq<Seq<char>> {
    v.map_values(|s: String| s@)
}

/// The LLM worker's command line (after the program).
pub open spec fn llm_args(opts: LlmSpawnOpts) -> Seq<Seq<char>> {
    seq![
        "--worker"@,
        "--model"@,
        opts.model@,
        "--n-ctx"@,
        dec(opts.n_ctx as nat),
        "--gpu-layers"@,
        dec(opts.gpu_layers as nat),
    ] + match opts.extra {
        Some(x) => arg_views(x@),
        None => seq![],
    }
}

/// The STT worker's command line (after the program).
pub open spec fn stt_args(opts: SttSpawnOpts) -> Seq<Seq<char>> {
    seq!["--worker"@, "--model"@, opts.model@, "--threads"@, dec_int(opts.threads as int)]
}

impl LlmSpawnOpts {
    /// The arguments the worker is started with.
    pub fn worker_args(&self) -> (r: Vec<String>)
        ensures
            arg_views(r@) == llm_args(*self),
    {
        let mut args: Vec<String> = Vec::new();
        args.push(to_string("--worker"));
        args.push(to_string("--model"));
        args.push(self.model.clone());
        args.push(to_string("--n-ctx"));
        args.push(u64_text(self.n_ctx as u64));
        args.push(to_string("--gpu-layers"));
        args.push(u64_text(self.gpu_layers as u64));
        let ghost head = arg_views(args@);
        match &self.extra {
            Some(extra) => {
                let mut i: usize = 0;
                while i < extra.len()
                    invariant
                        i <= extra.len(),
                        arg_views(args@) == head + arg_views(extra@).take(i as int),
                    decreases extra.len() - i,
                {
                    let ghost prev = args@;
                    let x = extra[i].clone();
                    assert(x@ == extra@[i as int]@);
                    args.push(x);
                    assert(arg_views(args@) =~= arg_views(prev).push(extra@[i as int]@));
                    assert(arg_views(extra@).take(i + 1) =~= arg_views(extra@).take(i as int).push(
                        extra@[i as int]@,
                    ));
                    i += 1;
                    assert(arg_views(args@) =~= head + arg_views(extra@).take(i as int));
                }
                assert(arg_views(extra@).take(extra.len() as int) =~= arg_views(extra@));
            },
            None => {},
        }
        assert(arg_views(args@) =~= llm_args(*self));
        args
    }
}

impl SttSpawnOpts {
    /// The arguments the worker is started with.
    pub fn worker_args(&self) -> (r: Vec<String>)
        ensures
            arg_views(r@) == stt_args(*self),
    {
        let mut args: Vec<String> = Vec::new();
        args.push(to_string("--worker"));
        args.push(to_string("--model"));
        args.push(self.model.clone());
        args.push(to_string("--threads"));
        args.push(i64_text(self.threads as i64));
        assert(arg_views(args@) =~= stt_args(*self));
        args
    }
}

// ───────────────────────── audio files ─────────────────────────

/// The file extension used for audio of a given format.
pub open spec fn audio_ext(format: Seq<char>) -> Seq<char> {
    if format == "webm"@ {
        "webm"@
    } else if format == "ogg"@ || format == "opus"@ {
        "ogg"@
    } else if format == "mp4"@ || format == "m4a"@ {
        "m4a"@
    } else if format == "wav"@ {
        "wav"@
    } else if format == "mp3"@ || format == "mpeg"@ {
        "mp3"@
    } else {
        "bin"@
    }
}

/// The extension for audio of `format` (`bin` for one not known).
pub fn audio_extension(format: &str) -> (r: String)
    ensures
        r@ == audio_ext(format@),
{
    if str_eq(format, "webm") {
        to_string("webm")
    } else if str_eq(format, "ogg") || str_eq(format, "opus") {
        to_string("ogg")
    } else if str_eq(format, "mp4") || str_eq(format, "m4a") {
        to_string("m4a")
    } else if str_eq(format, "wav") {
        to_string("wav")
    } else if str_eq(format, "mp3") || str_eq(format, "mpeg") {
        to_string("mp3")
    } else {
        to_string("bin")
    }
}

/// The name of the temporary audio file handed to the STT worker.
pub fn temp_audio_name(token: &str, format: &str) -> (r: String)
    ensures
        r@ == "adv-stt-"@ + token@ + "."@ + audio_ext(format@),
{
    let mut s = to_string("adv-stt-");
    s.append(token);
    s.append(".");
    let e = audio_extension(format);
    s.append(e.as_str());
    s
}

} // verus!
