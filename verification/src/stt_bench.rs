//! The STT bench: how audio is handed to ffmpeg and ffprobe, which MIME type
//! an upload is labelled with, and how a transcript is judged.

use vstd::prelude::*;
use crate::text::{
    chars_of, chars_eq, lowercase_chars, slice_chars, lower_seq, trim, is_ws, whitespace,
    trim_chars, to_string,
};
use crate::llm_bench::{rfind_char, rfind_char_in};
use crate::workers::arg_views;

verus! {

/// How the STT worker mode is started.
pub struct WorkerOpts {
    /// Path to the model file.
    pub model: String,
    pub threads: i32,
}

/// Audio format of a transcribe request that names none.
pub fn default_format() -> (r: String)
    ensures
        r@ == "webm"@,
{
    to_string("webm")
}

/// Language of a transcribe request that names none.
pub fn default_language() -> (r: String)
    ensures
        r@ == "en"@,
{
    to_string("en")
}

// ───────────────────────── uploads ─────────────────────────

/// The file extension as `rsplit('.')` finds it: the text after the last
/// dot, or the whole name when there is none.
pub open spec fn extension_of(filename: Seq<char>) -> Seq<char> {
    let i = rfind_char(filename, '.');
    if i >= 0 {
        filename.skip(i + 1)
    } else {
        filename
    }
}

/// The MIME type for an extension (already lower-cased).
pub open spec fn mime_of_ext(ext: Seq<char>) -> Seq<char> {
    if ext == "webm"@ {
        "audio/webm"@
    } else if ext == "mp3"@ {
        "audio/mpeg"@
    } else if ext == "wav"@ {
        "audio/wav"@
    } else if ext == "ogg"@ || ext == "opus"@ {
        "audio/ogg"@
    } else if ext == "m4a"@ {
        "audio/mp4"@
    } else if ext == "flac"@ {
        "audio/flac"@
    } else {
        "application/octet-stream"@
    }
}

fn is_ext(ext: &Vec<char>, name: &str) -> (r: bool)
    ensures
        r == (ext@ == name@),
{
    let n = chars_of(name);
    chars_eq(ext, &n)
}

/// The MIME type an audio upload is sent with, from its file name's
/// extension (compared without regard to ASCII case).
pub fn mime_for(filename: &str) -> (r: &'static str)
    ensures
        r@ == mime_of_ext(lower_seq(extension_of(filename@))),
{
    let v = chars_of(filename);
    let dot = rfind_char_in(&v, '.');
    let ext = match dot {
        Some(d) => slice_chars(&v, d + 1, v.len()),
        None => slice_chars(&v, 0, v.len()),
    };
    proof {
        match dot {
            Some(d) => {
                assert(rfind_char(v@, '.') == d);
                assert(ext@ =~= v@.skip(d + 1));
            },
            None => {
                assert(ext@ =~= v@);
            },
        }
    }
    let e = lowercase_chars(&ext);
    if is_ext(&e, "webm") {
        "audio/webm"
    } else if is_ext(&e, "mp3") {
        "audio/mpeg"
    } else if is_ext(&e, "wav") {
        "audio/wav"
    } else if is_ext(&e, "ogg") || is_ext(&e, "opus") {
        "audio/ogg"
    } else if is_ext(&e, "m4a") {
        "audio/mp4"
    } else if is_ext(&e, "flac") {
        "audio/flac"
    } else {
        "application/octet-stream"
    }
}

/// The Speaches transcription endpoint under `base`.
pub fn speaches_url(base: &str) -> (r: String)
    ensures
        r@ == base@ + "/v1/audio/transcriptions"@,
{
    let mut r = to_string(base);
    r.append("/v1/audio/transcriptions");
    r
}

// ───────────────────────── decoding ─────────────────────────

/// ffmpeg's arguments to decode the file `input` to 16 kHz mono 32-bit
/// float PCM written to `output` (`-` or `pipe:1` for standard output).
pub open spec fn decode_args(input: Seq<char>, output: Seq<char>) -> Seq<Seq<char>> {
    seq![
        "-hide_banner"@,
        "-loglevel"@,
        "error"@,
        "-i"@,
        input,
        "-ar"@,
        "16000"@,
        "-ac"@,
        "1"@,
        "-f"@,
        "f32le"@,
        output,
    ]
}

/// ffmpeg's arguments to decode audio of `format` read from standard input
/// to 16 kHz mono 32-bit float PCM on standard output.
pub open spec fn stdin_decode_args(format: Seq<char>) -> Seq<Seq<char>> {
    seq![
        "-hide_banner"@,
        "-loglevel"@,
        "error"@,
        "-f"@,
        format,
        "-i"@,
        "pipe:0"@,
        "-ar"@,
        "16000"@,
        "-ac"@,
        "1"@,
        "-f"@,
        "f32le"@,
        "pipe:1"@,
    ]
}

/// ffprobe's arguments to print just the duration of `input`, in seconds.
pub open spec fn probe_args(input: Seq<char>) -> Seq<Seq<char>> {
    seq![
        "-v"@,
        "error"@,
        "-show_entries"@,
        "format=duration"@,
        "-of"@,
        "default=nw=1:nk=1"@,
        input,
    ]
}

/// See `decode_args`.
pub fn ffmpeg_decode_args(input: &str, output: &str) -> (r: Vec<String>)
    ensures
        arg_views(r@) == decode_args(input@, output@),
{
    let mut a: Vec<String> = Vec::new();
    a.push(to_string("-hide_banner"));
    a.push(to_string("-loglevel"));
    a.push(to_string("error"));
    a.push(to_string("-i"));
    a.push(to_string(input));
    a.push(to_string("-ar"));
    a.push(to_string("16000"));
    a.push(to_string("-ac"));
    a.push(to_string("1"));
    a.push(to_string("-f"));
    a.push(to_string("f32le"));
    a.push(to_string(output));
    assert(arg_views(a@) =~= decode_args(input@, output@));
    a
}

/// See `stdin_decode_args`.
pub fn ffmpeg_stdin_args(format: &str) -> (r: Vec<String>)
    ensures
        arg_views(r@) == stdin_decode_args(format@),
{
    let mut a: Vec<String> = Vec::new();
    a.push(to_string("-hide_banner"));
    a.push(to_string("-loglevel"));
    a.push(to_string("error"));
    a.push(to_string("-f"));
    a.push(to_string(format));
    a.push(to_string("-i"));
    a.push(to_string("pipe:0"));
    a.push(to_string("-ar"));
    a.push(to_string("16000"));
    a.push(to_string("-ac"));
    a.push(to_string("1"));
    a.push(to_string("-f"));
    a.push(to_string("f32le"));
    a.push(to_string("pipe:1"));
    assert(arg_views(a@) =~= stdin_decode_args(format@));
    a
}

/// See `probe_args`.
pub fn ffprobe_duration_args(input: &str) -> (r: Vec<String>)
    ensures
        arg_views(r@) == probe_args(input@),
{
    let mut a: Vec<String> = Vec::new();
    a.push(to_string("-v"));
    a.push(to_string("error"));
    a.push(to_string("-show_entries"));
    a.push(to_string("format=duration"));
    a.push(to_string("-of"));
    a.push(to_string("default=nw=1:nk=1"));
    a.push(to_string(input));
    assert(arg_views(a@) =~= probe_args(input@));
    a
}

// ───────────────────────── judging a transcript ─────────────────────────

/// Whether a word starts at `i`: a non-whitespace character at the start or
/// after whitespace.
pub open spec fn word_starts_at(s: Seq<char>, i: int) -> bool {
    !is_ws(s[i]) && (i == 0 || is_ws(s[i - 1]))
}

/// Number of words (maximal runs of non-whitespace), as `split_whitespace`
/// counts them.
pub open spec fn word_count(s: Seq<char>) -> nat
    decreases s.len(),
{
    if s.len() == 0 {
        0
    } else {
        word_count(s.drop_last()) + if word_starts_at(s, s.len() - 1) {
            1nat
        } else {
            0nat
        }
    }
}

/// How the bench judges a transcript.
pub enum TranscriptVerdict {
    /// Nothing but whitespace.
    Empty,
    /// Fewer than five words.
    Short { words: usize, chars: usize },
    Fine { words: usize, chars: usize },
}

/// Judge a transcript by the words and characters of its trimmed text.
pub fn transcript_verdict(text: &str) -> (r: TranscriptVerdict)
    ensures
        ({
            let t = trim(text@);
            &&& t.len() == 0 <==> r is Empty
            &&& r matches TranscriptVerdict::Short { words, chars } ==> words == word_count(t)
                && words < 5 && chars == t.len()
            &&& r matches TranscriptVerdict::Fine { words, chars } ==> words == word_count(t)
                && words >= 5 && chars == t.len()
            &&& t.len() > 0 ==> (word_count(t) < 5 <==> r is Short)
        }),
{
    let v = chars_of(text);
    let t = trim_chars(&v);
    let ghost ts = t@;
    let mut words: usize = 0;
    let mut i: usize = 0;
    assert(ts.take(0) =~= Seq::<char>::empty());
    while i < t.len()
        invariant
            i <= t.len(),
            ts == t@,
            words == word_count(ts.take(i as int)),
            words <= i,
        decreases t.len() - i,
    {
        let c = t[i];
        let starts = !whitespace(c) && (i == 0 || whitespace(t[i - 1]));
        proof {
            let p = ts.take(i + 1);
            assert(p.drop_last() =~= ts.take(i as int));
            assert(p.last() == c);
            if i > 0 {
                assert(p[i - 1] == ts[i - 1]);
            }
            assert(starts == word_starts_at(p, p.len() - 1));
        }
        if starts {
            words = words + 1;
        }
        i += 1;
    }
    assert(ts.take(t.len() as int) =~= ts);
    let chars = t.len();
    if chars == 0 {
        TranscriptVerdict::Empty
    } else if words < 5 {
        TranscriptVerdict::Short { words, chars }
    } else {
        TranscriptVerdict::Fine { words, chars }
    }
}

} // verus!
