//! The never-delete audio archive of a session: every voice chunk is saved
//! as `audio/chunk-NNNNNN.ext` before it is transcribed, and one line per
//! chunk goes to `raw-events.jsonl` whatever the transcription did. After a
//! restart the numbering resumes after the highest chunk found on disk, so
//! no earlier audio is overwritten.

use vstd::prelude::*;
use crate::text::{chars_of, to_string};
use crate::fmt::{dec, pad_left, dec_padded, u64_text};
use crate::json::{JsonValue, JsonView, jv_entries, lemma_jv_entries};

verus! {

/// The file name of chunk `seq`: the number zero-padded to six digits.
pub open spec fn chunk_name(seq: nat, ext: Seq<char>) -> Seq<char> {
    "chunk-"@ + pad_left(dec(seq), 6, '0') + "."@ + ext
}

/// See `chunk_name`.
pub fn chunk_file_name(seq: u64, ext: &str) -> (r: String)
    ensures
        r@ == chunk_name(seq as nat, ext@),
{
    let mut r = to_string("chunk-");
    let d = dec_padded(seq, 6);
    r.append(d.as_str());
    r.append(".");
    r.append(ext);
    r
}

/// A decimal digit.
pub open spec fn is_digit(c: char) -> bool {
    '0' <= c && c <= '9'
}

/// The number decimal digits `s` spell, read after a running value `acc`.
pub open spec fn dec_value_from(s: Seq<char>, acc: nat) -> nat
    decreases s.len(),
{
    if s.len() == 0 {
        acc
    } else {
        dec_value_from(s.drop_first(), acc * 10 + ((s[0] as u32) - 48) as nat)
    }
}

/// The number in a chunk file name: `chunk-`, at least one digit, then a
/// dot and the extension; `None` for any other name.
pub open spec fn chunk_seq(name: Seq<char>) -> Option<nat> {
    let rest = name.skip(6);
    let k = crate::gemma::find_char(rest, '.');
    if name.len() >= 6 && name.take(6) == "chunk-"@ && 1 <= k < rest.len() && (forall|i: int|
        0 <= i < k ==> is_digit(#[trigger] rest[i])) {
        Some(dec_value_from(rest.take(k), 0))
    } else {
        None
    }
}

proof fn lemma_dec_value_push(s: Seq<char>, c: char, acc: nat)
    requires
        is_digit(c),
    ensures
        dec_value_from(s.push(c), acc) == dec_value_from(s, acc) * 10 + ((c as u32) - 48) as nat,
    decreases s.len(),
{
    if s.len() == 0 {
        assert(s.push(c) =~= seq![c]);
        assert(seq![c].drop_first() =~= Seq::<char>::empty());
        let a2 = acc * 10 + ((c as u32) - 48) as nat;
        assert(dec_value_from(Seq::<char>::empty(), a2) == a2);
    } else {
        assert(s.push(c).drop_first() =~= s.drop_first().push(c));
        lemma_dec_value_push(s.drop_first(), c, acc * 10 + ((s[0] as u32) - 48) as nat);
    }
}

proof fn lemma_dec_value_grows(s: Seq<char>, acc: nat)
    ensures
        dec_value_from(s, acc) >= acc,
    decreases s.len(),
{
    if s.len() > 0 {
        lemma_dec_value_grows(s.drop_first(), acc * 10 + ((s[0] as u32) - 48) as nat);
    }
}

proof fn lemma_dec_value_split(a: Seq<char>, b: Seq<char>, acc: nat)
    ensures
        dec_value_from(a + b, acc) == dec_value_from(b, dec_value_from(a, acc)),
    decreases a.len(),
{
    if a.len() > 0 {
        assert((a + b).drop_first() =~= a.drop_first() + b);
        lemma_dec_value_split(a.drop_first(), b, acc * 10 + ((a[0] as u32) - 48) as nat);
    }
}

/// The number of a chunk file, if `name` is one; `None` also when the
/// number does not fit in a `u64`.
pub fn chunk_seq_of(name: &str) -> (r: Option<u64>)
    ensures
        r matches Some(v) ==> chunk_seq(name@) == Some(v as nat),
        r is None ==> (chunk_seq(name@) is None || chunk_seq(name@)->0 > u64::MAX),
{
    proof {
        reveal_strlit("chunk-");
    }
    let v = chars_of(name);
    if v.len() < 6 {
        return None;
    }
    let prefix = chars_of("chunk-");
    let mut i: usize = 0;
    while i < 6
        invariant
            i <= 6 <= v.len(),
            prefix@ == "chunk-"@,
            prefix@.len() == 6,
            v@ == name@,
            forall|j: int| 0 <= j < i ==> v@[j] == prefix@[j],
        decreases 6 - i,
    {
        if v[i] != prefix[i] {
            proof {
                assert(name@.take(6)[i as int] != "chunk-"@[i as int]);
                assert(name@.take(6) != "chunk-"@);
            }
            return None;
        }
        i += 1;
    }
    assert(v@.take(6) =~= "chunk-"@);
    let ghost rest = v@.skip(6);
    let dot = crate::gemma::find_char_from(&v, 6, '.');
    proof {
        crate::gemma::lemma_find_char_bounds(rest, '.');
    }
    let k = dot - 6;
    if k < 1 || dot >= v.len() {
        return None;
    }
    let mut acc: u64 = 0;
    let mut j: usize = 6;
    assert(rest.take(0) =~= Seq::<char>::empty());
    while j < dot
        invariant
            6 <= j <= dot < v.len(),
            v@ == name@,
            v@.take(6) == "chunk-"@,
            rest == v@.skip(6),
            dot - 6 == crate::gemma::find_char(rest, '.'),
            forall|m: int| 6 <= m < j ==> is_digit(#[trigger] v@[m]),
            acc as nat == dec_value_from(rest.take(j - 6), 0),
        decreases dot - j,
    {
        let c = v[j];
        if !('0' <= c && c <= '9') {
            proof {
                assert(rest[j - 6] == c);
                assert(!is_digit(rest[j - 6]));
            }
            return None;
        }
        let d = (c as u32 - 48) as u64;
        proof {
            assert(rest[j - 6] == c);
            assert(rest.take(j - 6 + 1) =~= rest.take(j - 6).push(c));
            lemma_dec_value_push(rest.take(j - 6), c, 0);
        }
        if acc > (u64::MAX - d) / 10 {
            proof {
                let kk = dot - 6;
                let all = rest.take(kk);
                assert(all =~= rest.take(j - 6 + 1) + rest.take(kk).skip(j - 6 + 1));
                lemma_dec_value_split(rest.take(j - 6 + 1), rest.take(kk).skip(j - 6 + 1), 0);
                lemma_dec_value_grows(
                    rest.take(kk).skip(j - 6 + 1),
                    dec_value_from(rest.take(j - 6 + 1), 0),
                );
                assert(acc * 10 + d > u64::MAX) by (nonlinear_arith)
                    requires
                        acc > (u64::MAX - d) / 10,
                        d <= 9,
                ;
                if chunk_seq(name@) is Some {
                    assert(chunk_seq(name@)->0 == dec_value_from(all, 0));
                }
            }
            return None;
        }
        acc = acc * 10 + d;
        j += 1;
    }
    proof {
        assert forall|m: int| 0 <= m < k implies is_digit(#[trigger] rest[m]) by {
            assert(rest[m] == v@[m + 6]);
        }
    }
    Some(acc)
}

/// The number the next chunk gets: one past the highest on disk, or 0 when
/// there is none; `None` when the highest is the last number there is.
pub fn next_chunk_seq(highest: Option<u64>) -> (r: Option<u64>)
    ensures
        match highest {
            Some(h) => if h < u64::MAX {
                r == Some((h + 1) as u64)
            } else {
                r is None
            },
            None => r == Some(0u64),
        },
{
    match highest {
        Some(h) => if h < u64::MAX {
            Some(h + 1)
        } else {
            None
        },
        None => Some(0),
    }
}

/// The number a file name carries when it names a chunk whose number fits
/// in a `u64` (the only numbers chunk names are written with).
pub open spec fn chunk_number(name: Seq<char>) -> Option<nat> {
    match chunk_seq(name) {
        Some(v) => if v <= u64::MAX {
            Some(v)
        } else {
            None
        },
        None => None,
    }
}

/// The highest chunk number among `names`, if any names a chunk.
pub open spec fn highest_chunk(names: Seq<String>) -> Option<nat>
    decreases names.len(),
{
    if names.len() == 0 {
        None
    } else {
        let rest = highest_chunk(names.drop_last());
        match chunk_number(names.last()@) {
            None => rest,
            Some(v) => match rest {
                None => Some(v),
                Some(m) => Some(if v > m {
                    v
                } else {
                    m
                }),
            },
        }
    }
}

/// The number a new chunk gets in a directory holding `names`: one past the
/// highest chunk there, 0 when there is none, and none at all when the
/// highest is the last `u64`.
pub open spec fn resume_seq(names: Seq<String>) -> Option<nat> {
    match highest_chunk(names) {
        None => Some(0),
        Some(m) => if m < u64::MAX {
            Some(m + 1)
        } else {
            None
        },
    }
}

/// The number for the next chunk of a session whose audio directory holds
/// the files `names`: after a restart the numbering resumes past the
/// highest chunk on disk, so no earlier chunk is overwritten.
pub fn next_chunk_seq_after(names: &Vec<String>) -> (r: Option<u64>)
    ensures
        match r {
            Some(v) => resume_seq(names@) == Some(v as nat),
            None => resume_seq(names@) is None,
        },
{
    let mut best: Option<u64> = None;
    let mut i: usize = 0;
    while i < names.len()
        invariant
            i <= names.len(),
            match best {
                Some(b) => highest_chunk(names@.take(i as int)) == Some(b as nat),
                None => highest_chunk(names@.take(i as int)) is None,
            },
        decreases names.len() - i,
    {
        let c = chunk_seq_of(names[i].as_str());
        proof {
            assert(names@.take(i + 1).drop_last() =~= names@.take(i as int));
            assert(names@.take(i + 1).last() == names@[i as int]);
        }
        match c {
            Some(v) => {
                best = match best {
                    Some(b) => if v > b {
                        Some(v)
                    } else {
                        Some(b)
                    },
                    None => Some(v),
                };
            },
            None => {},
        }
        i += 1;
    }
    proof {
        assert(names@.take(names@.len() as int) =~= names@);
    }
    next_chunk_seq(best)
}

/// How transcribing a chunk went.
pub enum ChunkStatus {
    /// Text was added to the transcript.
    Transcribed,
    /// Nothing was heard, or only a sentinel: the transcript is unchanged.
    Skipped,
    /// The speech-to-text worker failed.
    SttError,
}

/// The status as the event log writes it.
pub open spec fn status_text(s: ChunkStatus) -> Seq<char> {
    match s {
        ChunkStatus::Transcribed => "ok"@,
        ChunkStatus::Skipped => "skipped"@,
        ChunkStatus::SttError => "stt_error"@,
    }
}

/// The archive event of one chunk: time stamp, number, where its audio is,
/// the status, and the transcript or the error when there is one; keys in
/// `serde_json`'s order.
pub open spec fn raw_event_view(
    ts: Seq<char>,
    seq: nat,
    audio_path: Seq<char>,
    status: ChunkStatus,
    transcript: Option<Seq<char>>,
    error: Option<Seq<char>>,
) -> JsonView {
    JsonView::Object(
        seq![("audio_path"@, JsonView::Str(audio_path))] + match error {
            Some(e) => seq![("error"@, JsonView::Str(e))],
            None => seq![],
        } + seq![
            ("seq"@, JsonView::Number(dec(seq))),
            ("status"@, JsonView::Str(status_text(status))),
        ] + match transcript {
            Some(t) => seq![("transcript"@, JsonView::Str(t))],
            None => seq![],
        } + seq![("ts"@, JsonView::Str(ts))],
    )
}

/// Build the archive event of one chunk (see `raw_event_view`).
pub fn raw_event(
    ts: &str,
    seq: u64,
    audio_path: &str,
    status: ChunkStatus,
    transcript: Option<&str>,
    error: Option<&str>,
) -> (r: JsonValue)
    ensures
        r@ == raw_event_view(
            ts@,
            seq as nat,
            audio_path@,
            status,
            match transcript {
                Some(t) => Some(t@),
                None => None,
            },
            match error {
                Some(e) => Some(e@),
                None => None,
            },
        ),
{
    let ghost st = status;
    let status_s = match status {
        ChunkStatus::Transcribed => to_string("ok"),
        ChunkStatus::Skipped => to_string("skipped"),
        ChunkStatus::SttError => to_string("stt_error"),
    };
    let mut es: Vec<(String, JsonValue)> = Vec::new();
    es.push((to_string("audio_path"), JsonValue::Str(to_string(audio_path))));
    match error {
        Some(e) => es.push((to_string("error"), JsonValue::Str(to_string(e)))),
        None => {},
    }
    es.push((to_string("seq"), JsonValue::Number(u64_text(seq))));
    es.push((to_string("status"), JsonValue::Str(status_s)));
    match transcript {
        Some(t) => es.push((to_string("transcript"), JsonValue::Str(to_string(t)))),
        None => {},
    }
    es.push((to_string("ts"), JsonValue::Str(to_string(ts))));
    proof {
        lemma_jv_entries(es@);
        let a = ("audio_path"@, JsonView::Str(audio_path@));
        let sq = ("seq"@, JsonView::Number(dec(seq as nat)));
        let stt = ("status"@, JsonView::Str(status_text(st)));
        let tsv = ("ts"@, JsonView::Str(ts@));
        let tv: Option<Seq<char>> = match transcript {
            Some(t) => Some(t@),
            None => None,
        };
        let ev: Option<Seq<char>> = match error {
            Some(e) => Some(e@),
            None => None,
        };
        let ep: Seq<(Seq<char>, JsonView)> = match ev {
            Some(e) => seq![("error"@, JsonView::Str(e))],
            None => seq![],
        };
        let tp: Seq<(Seq<char>, JsonView)> = match tv {
            Some(t) => seq![("transcript"@, JsonView::Str(t))],
            None => seq![],
        };
        assert(jv_entries(es@) =~= seq![a] + ep + seq![sq, stt] + tp + seq![tsv]);
        assert(raw_event_view(ts@, seq as nat, audio_path@, st, tv, ev) == JsonView::Object(
            seq![a] + ep + seq![sq, stt] + tp + seq![tsv],
        ));
    }
    JsonValue::Object(es)
}

} // verus!
