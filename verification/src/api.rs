//! The computations behind the REST routes: character slugs, audio format
//! hints, transcript views, and what an accepted voice chunk does to the
//! session.

use vstd::prelude::*;
use crate::text::{
    chars_of, string_from_chars, is_ascii_alnum, ascii_alnum, ascii_lower,
    to_ascii_lower, lower_seq, lowercase_chars, contains, contains_chars, strip_suffixes, trim,
    trimmed, str_eq,
};
use crate::lines::{tail_lines, last_lines};
use crate::fmt::{dec, pad_left, dec_padded};
use crate::state::{AppState, Event, appended, TRANSCRIPT_EVENT_TAIL};
use crate::lines;

verus! {

// ───────────────────────── slugs ─────────────────────────

/// Slug characters of `s` given whether the slug so far ends in a dash (or
/// is empty): letters and digits in lower case, each other run of
/// characters as one dash.
pub open spec fn slug_acc(s: Seq<char>, last_dash: bool) -> Seq<char>
    decreases s.len(),
{
    if s.len() == 0 {
        seq![]
    } else if is_ascii_alnum(s[0]) {
        seq![ascii_lower(s[0])] + slug_acc(s.drop_first(), false)
    } else if !last_dash {
        seq!['-'] + slug_acc(s.drop_first(), true)
    } else {
        slug_acc(s.drop_first(), true)
    }
}

/// The slug of a character name: ASCII letters and digits in lower case,
/// other runs as single dashes, no leading or trailing dash.
pub open spec fn slug(name: Seq<char>) -> Seq<char> {
    strip_suffixes(slug_acc(name, true), "-"@)
}

/// Slug for a character name.
pub fn slugify(name: &str) -> (r: String)
    ensures
        r@ == slug(name@),
{
    let v = chars_of(name);
    let mut out: Vec<char> = Vec::new();
    let mut last_dash = true;
    let mut i: usize = 0;
    assert(v@.skip(0) =~= v@);
    while i < v.len()
        invariant
            i <= v.len(),
            out@ + slug_acc(v@.skip(i as int), last_dash) == slug_acc(v@, true),
        decreases v.len() - i,
    {
        let c = v[i];
        let ghost rest = v@.skip(i as int);
        assert(rest.drop_first() =~= v@.skip(i + 1));
        assert(rest[0] == c);
        let ghost before = out@;
        if ascii_alnum(c) {
            out.push(to_ascii_lower(c));
            last_dash = false;
        } else if !last_dash {
            out.push('-');
            last_dash = true;
        }
        assert(before + slug_acc(rest, false) =~= out@ + slug_acc(v@.skip(i + 1), last_dash)
            || before + slug_acc(rest, true) =~= out@ + slug_acc(v@.skip(i + 1), last_dash));
        i += 1;
    }
    assert(v@.skip(v.len() as int) =~= Seq::<char>::empty());
    assert(out@ + Seq::<char>::empty() =~= out@);
    let dash = chars_of("-");
    let k = crate::text::strip_suffixes_index(&out, out.len(), &dash);
    assert(out@.take(out.len() as int) =~= out@);
    let t = crate::text::slice_chars(&out, 0, k);
    assert(t@ =~= out@.take(k as int));
    string_from_chars(t.as_slice())
}

/// A character as the stage UI submits it (missing fields default to empty
/// text and zero).
pub struct CharacterIn {
    pub name: String,
    pub char_class: String,
    pub hp_current: i64,
    pub hp_max: i64,
    pub ac: i64,
    pub notes: String,
}

impl CharacterIn {
    /// The slug the character is filed under.
    pub fn slug(&self) -> (r: String)
        ensures
            r@ == slug(self.name@),
    {
        slugify(self.name.as_str())
    }
}

/// A slug character: a lower-case ASCII letter, a digit, or a dash.
pub open spec fn slug_char(c: char) -> bool {
    ('a' <= c && c <= 'z') || ('0' <= c && c <= '9') || c == '-'
}

/// Well-shaped slug: slug characters only, no dash at either end, no two
/// dashes in a row.
pub open spec fn slug_shaped(s: Seq<char>) -> bool {
    &&& forall|i: int| 0 <= i < s.len() ==> slug_char(#[trigger] s[i])
    &&& s.len() > 0 ==> s[0] != '-' && s.last() != '-'
    &&& forall|i: int| 0 <= i < s.len() - 1 ==> !(#[trigger] s[i] == '-' && s[i + 1] == '-')
}

proof fn lemma_slug_acc(s: Seq<char>, d: bool)
    ensures
        forall|i: int|
            0 <= i < slug_acc(s, d).len() ==> slug_char(#[trigger] slug_acc(s, d)[i]),
        d && slug_acc(s, d).len() > 0 ==> slug_acc(s, d)[0] != '-',
        forall|i: int|
            0 <= i < slug_acc(s, d).len() - 1 ==> !(#[trigger] slug_acc(s, d)[i] == '-'
                && slug_acc(s, d)[i + 1] == '-'),
    decreases s.len(),
{
    if s.len() > 0 {
        let r = s.drop_first();
        lemma_slug_acc(r, false);
        lemma_slug_acc(r, true);
        let out = slug_acc(s, d);
        if is_ascii_alnum(s[0]) {
            let t = slug_acc(r, false);
            assert(out == seq![ascii_lower(s[0])] + t);
            assert forall|i: int| 0 <= i < out.len() implies slug_char(#[trigger] out[i]) by {
                if i > 0 {
                    assert(out[i] == t[i - 1]);
                }
            }
            assert forall|i: int| 0 <= i < out.len() - 1 implies !(#[trigger] out[i] == '-'
                && out[i + 1] == '-') by {
                if i > 0 {
                    assert(out[i] == t[i - 1] && out[i + 1] == t[i]);
                }
            }
        } else if !d {
            let t = slug_acc(r, true);
            assert(out == seq!['-'] + t);
            assert forall|i: int| 0 <= i < out.len() implies slug_char(#[trigger] out[i]) by {
                if i > 0 {
                    assert(out[i] == t[i - 1]);
                }
            }
            assert forall|i: int| 0 <= i < out.len() - 1 implies !(#[trigger] out[i] == '-'
                && out[i + 1] == '-') by {
                if i > 0 {
                    assert(out[i] == t[i - 1] && out[i + 1] == t[i]);
                } else {
                    assert(out[1] == t[0]);
                }
            }
        }
    }
}

proof fn lemma_strip_dashes(x: Seq<char>)
    ensures
        strip_suffixes(x, "-"@).len() <= x.len(),
        strip_suffixes(x, "-"@) == x.take(strip_suffixes(x, "-"@).len() as int),
        strip_suffixes(x, "-"@).len() > 0 ==> strip_suffixes(x, "-"@).last() != '-',
    decreases x.len(),
{
    reveal_strlit("-");
    let p = "-"@;
    if p.len() > 0 && crate::text::occurs_at(x, p, x.len() - p.len()) {
        let y = x.take(x.len() - 1);
        lemma_strip_dashes(y);
        let r = strip_suffixes(y, p);
        assert(r =~= x.take(r.len() as int));
    } else {
        assert(x.take(x.len() as int) =~= x);
        if x.len() > 0 && x.last() == '-' {
            assert(x.subrange(x.len() - 1, x.len() as int) =~= p);
        }
    }
}

/// Every slug is well shaped: lower-case letters, digits and single dashes,
/// with no dash at either end.
pub proof fn law_slug_shaped(name: Seq<char>)
    ensures
        slug_shaped(slug(name)),
{
    let x = slug_acc(name, true);
    lemma_slug_acc(name, true);
    lemma_strip_dashes(x);
    let r = slug(name);
    assert forall|i: int| 0 <= i < r.len() implies slug_char(#[trigger] r[i]) by {
        assert(r[i] == x[i]);
    }
    assert forall|i: int| 0 <= i < r.len() - 1 implies !(#[trigger] r[i] == '-' && r[i + 1]
        == '-') by {
        assert(r[i] == x[i] && r[i + 1] == x[i + 1]);
    }
    if r.len() > 0 {
        assert(r[0] == x[0]);
    }
}

proof fn lemma_slug_acc_fixed(s: Seq<char>, d: bool)
    requires
        forall|i: int| 0 <= i < s.len() ==> slug_char(#[trigger] s[i]),
        forall|i: int| 0 <= i < s.len() - 1 ==> !(#[trigger] s[i] == '-' && s[i + 1] == '-'),
        d && s.len() > 0 ==> s[0] != '-',
    ensures
        slug_acc(s, d) == s,
    decreases s.len(),
{
    if s.len() > 0 {
        let r = s.drop_first();
        assert forall|i: int| 0 <= i < r.len() implies slug_char(#[trigger] r[i]) by {
            assert(r[i] == s[i + 1]);
        }
        assert forall|i: int| 0 <= i < r.len() - 1 implies !(#[trigger] r[i] == '-' && r[i + 1]
            == '-') by {
            assert(r[i] == s[i + 1] && r[i + 1] == s[i + 2]);
        }
        assert(slug_char(s[0]));
        if s[0] == '-' {
            if r.len() > 0 {
                assert(r[0] == s[1]);
            }
            lemma_slug_acc_fixed(r, true);
            assert(slug_acc(s, d) =~= seq!['-'] + r);
        } else {
            lemma_slug_acc_fixed(r, false);
            assert(ascii_lower(s[0]) == s[0]);
            assert(slug_acc(s, d) =~= seq![s[0]] + r);
        }
        assert(s =~= seq![s[0]] + r);
    }
}

/// A well-shaped slug is its own slug.
pub proof fn law_slug_of_slug_shaped(s: Seq<char>)
    requires
        slug_shaped(s),
    ensures
        slug(s) == s,
{
    reveal_strlit("-");
    lemma_slug_acc_fixed(s, true);
    if s.len() > 0 {
        assert(s.subrange(s.len() - 1, s.len() as int) != "-"@) by {
            assert(s.subrange(s.len() - 1, s.len() as int)[0] == s.last());
        }
    }
}

/// Slugging is idempotent: the slug of a slug is the same slug, so a
/// character filed under a slug is found again under it.
pub proof fn law_slug_idempotent(name: Seq<char>)
    ensures
        slug(slug(name)) == slug(name),
{
    law_slug_shaped(name);
    law_slug_of_slug_shaped(slug(name));
}

// ───────────────────────── audio formats ─────────────────────────

/// The ffmpeg input format for an upload's MIME type (case-insensitive):
/// webm, ogg (also for opus), mp4 (also m4a), wav, mp3 (also mpeg), and webm
/// — the browser default — for anything else.
pub open spec fn ffmpeg_format(mime: Seq<char>) -> Seq<char> {
    let m = lower_seq(mime);
    if contains(m, "webm"@) {
        "webm"@
    } else if contains(m, "ogg"@) || contains(m, "opus"@) {
        "ogg"@
    } else if contains(m, "mp4"@) || contains(m, "m4a"@) {
        "mp4"@
    } else if contains(m, "wav"@) {
        "wav"@
    } else if contains(m, "mp3"@) || contains(m, "mpeg"@) {
        "mp3"@
    } else {
        "webm"@
    }
}

fn has(m: &Vec<char>, p: &str) -> (b: bool)
    ensures
        b == contains(m@, p@),
{
    let pv = chars_of(p);
    contains_chars(m, &pv)
}

/// ffmpeg format hint for an upload's MIME type.
pub fn mime_to_ffmpeg_format(mime: &str) -> (r: &'static str)
    ensures
        r@ == ffmpeg_format(mime@),
{
    let v = chars_of(mime);
    let m = lowercase_chars(&v);
    if has(&m, "webm") {
        "webm"
    } else if has(&m, "ogg") || has(&m, "opus") {
        "ogg"
    } else if has(&m, "mp4") || has(&m, "m4a") {
        "mp4"
    } else if has(&m, "wav") {
        "wav"
    } else if has(&m, "mp3") || has(&m, "mpeg") {
        "mp3"
    } else {
        "webm"
    }
}

// ───────────────────────── transcript ─────────────────────────

/// Number of lines in the tail `GET /api/transcript` returns.
pub const TRANSCRIPT_VIEW_TAIL: usize = 8;

/// Body of `GET /api/transcript`.
pub struct TranscriptReply {
    pub content: String,
    pub tail: String,
}

/// The transcript and its last eight lines.
pub fn get_transcript(app: &AppState) -> (r: TranscriptReply)
    ensures
        r.content@ == app.transcript(),
        r.tail@ == tail_lines(app.transcript(), TRANSCRIPT_VIEW_TAIL as nat),
{
    let content = app.current_transcript();
    let tail = last_lines(content.as_str(), TRANSCRIPT_VIEW_TAIL);
    TranscriptReply { content, tail }
}

// ───────────────────────── voice ─────────────────────────

/// `HH:MM:SS`, each part zero-padded to two digits.
pub open spec fn clock(h: nat, m: nat, s: nat) -> Seq<char> {
    pad_left(dec(h), 2, '0') + ":"@ + pad_left(dec(m), 2, '0') + ":"@ + pad_left(dec(s), 2, '0')
}

/// Wall-clock time as the transcript stamps it (`%H:%M:%S`).
pub fn clock_text(h: u32, m: u32, s: u32) -> (r: String)
    ensures
        r@ == clock(h as nat, m as nat, s as nat),
{
    let mut r = dec_padded(h as u64, 2);
    r.append(":");
    let mm = dec_padded(m as u64, 2);
    r.append(mm.as_str());
    r.append(":");
    let ss = dec_padded(s as u64, 2);
    r.append(ss.as_str());
    assert(r@ =~= clock(h as nat, m as nat, s as nat));
    r
}

/// The transcript line for recognised speech: a blank line, the bold
/// bracketed time, then the text.
pub open spec fn voice_line(stamp: Seq<char>, text: Seq<char>) -> Seq<char> {
    "\n**["@ + stamp + "]** "@ + text
}

/// Whether trimmed speech-to-text output is one of whisper's sentinel
/// hallucinations, which the transcript drops; other bracketed text (an
/// ambient sound such as `[paper rustling]`) is kept.
pub open spec fn is_sentinel(text: Seq<char>) -> bool {
    text == "[BLANK_AUDIO]"@ || text == "[silence]"@ || text == "[inaudible]"@
}

/// Whether the speech-to-text output adds nothing to the transcript: blank
/// once trimmed, or a sentinel.
pub open spec fn nothing_heard(stt_text: Seq<char>) -> bool {
    trim(stt_text).len() == 0 || is_sentinel(trim(stt_text))
}

/// Exactly three texts are dropped as whisper hallucinations: a chunk adds
/// nothing to the transcript when its trimmed text is empty or is
/// `[BLANK_AUDIO]`, `[silence]` or `[inaudible]`, and any other text,
/// bracketed ambient sounds included, is kept.
pub proof fn law_only_sentinels_are_dropped(stt_text: Seq<char>)
    ensures
        nothing_heard(stt_text) <==> (trim(stt_text).len() == 0 || trim(stt_text) == "[BLANK_AUDIO]"@
            || trim(stt_text) == "[silence]"@ || trim(stt_text) == "[inaudible]"@),
{
}

/// A bracketed capture other than the three sentinels (an ambient sound such
/// as `[paper rustling]` or `[laughter]`) is always kept.
pub proof fn law_ambient_sounds_are_kept(w: Seq<char>)
    requires
        "["@ + w + "]"@ != "[BLANK_AUDIO]"@,
        "["@ + w + "]"@ != "[silence]"@,
        "["@ + w + "]"@ != "[inaudible]"@,
    ensures
        !nothing_heard("["@ + w + "]"@),
{
    reveal_strlit("[");
    reveal_strlit("]");
    let t = "["@ + w + "]"@;
    assert(t[0] == '[');
    assert(t.last() == ']');
    assert(!crate::text::is_ws('['));
    assert(!crate::text::is_ws(']'));
    assert(crate::text::trim_start(t) == t);
    assert(crate::text::trim_end(t) == t);
    assert(trim(t) == t);
}

/// A kept chunk only adds to the transcript: everything there before stays
/// as it was, a line break follows it, and the transcript then ends with
/// the time stamp in bold brackets and the text.
pub proof fn law_voice_line_extends_transcript(
    transcript: Seq<char>,
    stamp: Seq<char>,
    text: Seq<char>,
)
    ensures
        ({
            let new = appended(transcript, voice_line(stamp, text));
            let tail = "**["@ + stamp + "]** "@ + text;
            &&& new.take(transcript.len() as int) == transcript
            &&& new[transcript.len() as int] == '\n'
            &&& new.len() >= transcript.len() + 1 + tail.len()
            &&& new.skip(new.len() - tail.len()) == tail
        }),
{
    reveal_strlit("\n**[");
    reveal_strlit("**[");
    reveal_strlit("]** ");
    let line = voice_line(stamp, text);
    let tail = "**["@ + stamp + "]** "@ + text;
    assert(line =~= seq!['\n'] + tail);
    let new = appended(transcript, line);
    if transcript.len() > 0 && transcript.last() != '\n' {
        assert(new =~= transcript + seq!['\n'] + seq!['\n'] + tail);
    } else {
        assert(new =~= transcript + seq!['\n'] + tail);
    }
    assert(new.take(transcript.len() as int) =~= transcript);
    assert(new.skip(new.len() - tail.len()) =~= tail);
}

/// What a transcribed voice chunk did.
pub enum VoiceOutcome {
    /// Nothing was recognised; the session is unchanged.
    Silent,
    /// `text` was appended; `event` is the transcript event to broadcast.
    Appended { text: String, event: Event },
}

/// Take the speech-to-text result of a voice chunk: blank text and the
/// sentinels `[BLANK_AUDIO]`, `[silence]` and `[inaudible]` change nothing;
/// otherwise the trimmed text is appended to the transcript as a
/// time-stamped line, and the transcript event to broadcast is returned.
pub fn accept_transcription(app: &mut AppState, stt_text: &str, stamp: &str) -> (r: VoiceOutcome)
    ensures
        final(app).panels() == old(app).panels(),
        final(app).state() == old(app).state(),
        final(app).dir() == old(app).dir(),
        nothing_heard(stt_text@) ==> r is Silent && final(app).transcript() == old(
            app,
        ).transcript(),
        !nothing_heard(stt_text@) ==> {
            &&& final(app).transcript() == appended(
                old(app).transcript(),
                voice_line(stamp@, trim(stt_text@)),
            )
            &&& r matches VoiceOutcome::Appended { text, event }
            &&& text@ == trim(stt_text@)
            &&& event matches Event::Transcript { content, tail }
            &&& content@ == final(app).transcript()
            &&& tail@ == tail_lines(final(app).transcript(), TRANSCRIPT_EVENT_TAIL as nat)
        },
{
    let text = trimmed(stt_text);
    if text.as_str().is_empty() || str_eq(text.as_str(), "[BLANK_AUDIO]") || str_eq(
        text.as_str(),
        "[silence]",
    ) || str_eq(text.as_str(), "[inaudible]") {
        return VoiceOutcome::Silent;
    }
    let mut line = string_from_chars(&[]);
    line.append("\n**[");
    line.append(stamp);
    line.append("]** ");
    line.append(text.as_str());
    proof {
        reveal_strlit("\n**[");
        reveal_strlit("]** ");
    }
    assert(line@ =~= voice_line(stamp@, trim(stt_text@)));
    let (content, tail) = app.append_transcript(line.as_str());
    VoiceOutcome::Appended { text, event: Event::Transcript { content, tail } }
}

} // verus!
