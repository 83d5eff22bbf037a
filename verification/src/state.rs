//! Session state: transcript, panel markdown and the state JSON the LLM
//! maintains, with the operations the server performs on them.

use vstd::prelude::*;
use crate::json::{JsonValue, JsonView, merge, deep_merge, deep_clone};
use crate::lines::{tail_lines, tail_lines_chars};
use crate::strmap::{StrMap, entry_get, entry_put, law_put_get, lemma_put_len};
use crate::text::{chars_of, push_char, string_from_chars};

verus! {

/// Panel markdown keyed by panel name (scene, story-log, party, next-steps,
/// map), in name order.
pub type Panels = StrMap<String>;

/// The text of panel `name` in `p`, if there is one.
pub open spec fn panel_text(p: Seq<(Seq<char>, String)>, name: Seq<char>) -> Option<Seq<char>> {
    match entry_get(p, name) {
        Some(s) => Some(s@),
        None => None,
    }
}

/// Placeholder body of a panel in a new session.
pub open spec fn panel_placeholder(name: Seq<char>) -> Seq<char> {
    "## PANEL: "@ + name + "\n\n*New session.*\n"@
}

/// The panels every session starts with.
pub open spec fn default_panel_names() -> Seq<Seq<char>> {
    seq!["scene"@, "story-log"@, "party"@, "next-steps"@, "map"@]
}

/// Number of transcript lines in the tail sent with each transcript event.
pub const TRANSCRIPT_EVENT_TAIL: usize = 12;

/// `t` with `line` appended, on a line of its own when `t` does not already
/// end one.
pub open spec fn appended(t: Seq<char>, line: Seq<char>) -> Seq<char> {
    if t.len() > 0 && t.last() != '\n' {
        t + seq!['\n'] + line
    } else {
        t + line
    }
}

/// Broadcast event, in the shape the stage UI consumes.
#[allow(inconsistent_fields)]
pub enum Event {
    /// Sent on initial connection: the full snapshot.
    Init { panels: Panels, transcript: String, state: JsonValue },
    Transcript { content: String, tail: String },
    Panels { data: Panels },
    State { data: JsonValue },
    Decision { data: JsonValue },
}

/// Transcript, panels and state of one session.
pub struct SessionData {
    pub transcript: String,
    pub panels: Panels,
    pub state: JsonValue,
}

/// A copy of the session data at one moment.
pub struct SnapshotData {
    pub transcript: String,
    pub panels: Panels,
    pub state: JsonValue,
}

/// The live session: where it is mirrored on disk, and its data.
pub struct AppState {
    session_dir: String,
    data: SessionData,
}

fn put_placeholder(p: &mut Panels, name: &str)
    ensures
        forall|q: Seq<char>|
            #![trigger panel_text(final(p)@, q)]
            panel_text(final(p)@, q) == if q == name@ {
                Some(panel_placeholder(name@))
            } else {
                panel_text(old(p)@, q)
            },
        final(p)@.len() == if panel_text(old(p)@, name@) is Some {
            old(p)@.len()
        } else {
            old(p)@.len() + 1
        },
{
    let mut body = string_from_chars(&[]);
    body.append("## PANEL: ");
    body.append(name);
    body.append("\n\n*New session.*\n");
    proof {
        reveal_strlit("## PANEL: ");
        reveal_strlit("\n\n*New session.*\n");
    }
    assert(body@ =~= panel_placeholder(name@));
    let ghost b = body;
    let ghost before = p@;
    p.insert(to_owned_str(name), body);
    proof {
        lemma_put_len(before, name@, b);
        assert forall|q: Seq<char>| #![trigger panel_text(p@, q)]
            panel_text(p@, q) == if q == name@ {
                Some(panel_placeholder(name@))
            } else {
                panel_text(before, q)
            } by {
            law_put_get(before, name@, b, q);
        }
    }
}

fn to_owned_str(s: &str) -> (r: String)
    ensures
        r@ == s@,
{
    s.to_owned()
}

/// The panels of a new session: each of `default_panel_names` holding its
/// placeholder, and nothing else.
pub fn default_panels() -> (p: Panels)
    ensures
        p@.len() == 5,
        forall|i: int|
            0 <= i < 5 ==> panel_text(p@, #[trigger] default_panel_names()[i]) == Some(
                panel_placeholder(default_panel_names()[i]),
            ),
{
    proof {
        reveal_strlit("scene");
        reveal_strlit("story-log");
        reveal_strlit("party");
        reveal_strlit("next-steps");
        reveal_strlit("map");
        assert("scene"@ != "party"@) by {
            assert("scene"@[0] != "party"@[0]);
        }
        assert("scene"@.len() != "story-log"@.len());
        assert("scene"@.len() != "next-steps"@.len());
        assert("scene"@.len() != "map"@.len());
        assert("story-log"@.len() != "party"@.len());
        assert("story-log"@.len() != "next-steps"@.len());
        assert("story-log"@.len() != "map"@.len());
        assert("party"@.len() != "next-steps"@.len());
        assert("party"@.len() != "map"@.len());
        assert("next-steps"@.len() != "map"@.len());
    }
    let mut p: Panels = StrMap::new();
    assert(crate::strmap::entry_keys(p@) =~= Seq::<Seq<char>>::empty());
    assert(forall|q: Seq<char>| #[trigger] panel_text(p@, q) is None);
    put_placeholder(&mut p, "scene");
    put_placeholder(&mut p, "story-log");
    put_placeholder(&mut p, "party");
    put_placeholder(&mut p, "next-steps");
    put_placeholder(&mut p, "map");
    assert(default_panel_names()[0] == "scene"@);
    assert(default_panel_names()[1] == "story-log"@);
    assert(default_panel_names()[2] == "party"@);
    assert(default_panel_names()[3] == "next-steps"@);
    assert(default_panel_names()[4] == "map"@);
    p
}

impl AppState {
    /// Where the session is mirrored on disk.
    pub closed spec fn dir(&self) -> Seq<char> {
        self.session_dir@
    }

    /// The transcript so far.
    pub closed spec fn transcript(&self) -> Seq<char> {
        self.data.transcript@
    }

    /// Panels, in name order.
    pub closed spec fn panels(&self) -> Seq<(Seq<char>, String)> {
        self.data.panels@
    }

    /// The state JSON.
    pub closed spec fn state(&self) -> JsonView {
        self.data.state@
    }

    /// A new session mirrored at `session_dir`: empty transcript, the
    /// placeholder panels, and an empty state object.
    pub fn new(session_dir: String) -> (s: Self)
        ensures
            s.dir() == session_dir@,
            s.transcript() == Seq::<char>::empty(),
            s.panels().len() == 5,
            forall|i: int|
                0 <= i < 5 ==> panel_text(s.panels(), #[trigger] default_panel_names()[i])
                    == Some(panel_placeholder(default_panel_names()[i])),
            s.state() == JsonView::Object(Seq::empty()),
    {
        let panels = default_panels();
        let st = JsonValue::Object(Vec::new());
        assert(crate::json::jv_entries(Seq::<(String, JsonValue)>::empty()) =~= Seq::empty());
        let s = AppState {
            session_dir,
            data: SessionData { transcript: string_from_chars(&[]), panels, state: st },
        };
        assert(s.state() =~= JsonView::Object(Seq::empty()));
        s
    }

    /// Where the session is mirrored on disk.
    pub fn session_dir(&self) -> (r: &String)
        ensures
            r@ == self.dir(),
    {
        &self.session_dir
    }

    /// A copy of transcript, panels and state.
    pub fn snapshot(&self) -> (r: SnapshotData)
        ensures
            r.transcript@ == self.transcript(),
            r.panels@ == self.panels(),
            r.state@ == self.state(),
    {
        SnapshotData {
            transcript: self.data.transcript.clone(),
            panels: self.data.panels.copy(),
            state: deep_clone(&self.data.state),
        }
    }

    /// Append `line` to the transcript (on a new line unless the transcript
    /// already ends one); return the whole transcript and its last twelve
    /// lines.
    pub fn append_transcript(&mut self, line: &str) -> (r: (String, String))
        ensures
            final(self).transcript() == appended(old(self).transcript(), line@),
            old(self).transcript().is_prefix_of(final(self).transcript()),
            final(self).panels() == old(self).panels(),
            final(self).state() == old(self).state(),
            final(self).dir() == old(self).dir(),
            r.0@ == final(self).transcript(),
            r.1@ == tail_lines(final(self).transcript(), TRANSCRIPT_EVENT_TAIL as nat),
    {
        let v = chars_of(self.data.transcript.as_str());
        if v.len() > 0 && v[v.len() - 1] != '\n' {
            push_char(&mut self.data.transcript, '\n');
        }
        self.data.transcript.append(line);
        let all = chars_of(self.data.transcript.as_str());
        let tail = tail_lines_chars(&all, TRANSCRIPT_EVENT_TAIL);
        assert(old(self).transcript().is_prefix_of(self.transcript())) by {
            let o = old(self).transcript();
            assert(self.transcript().subrange(0, o.len() as int) =~= o);
        }
        (self.data.transcript.clone(), string_from_chars(tail.as_slice()))
    }

    /// The transcript so far.
    pub fn current_transcript(&self) -> (r: String)
        ensures
            r@ == self.transcript(),
    {
        self.data.transcript.clone()
    }

    /// Replace the state JSON.
    pub fn set_state(&mut self, state: JsonValue)
        ensures
            final(self).state() == state@,
            final(self).transcript() == old(self).transcript(),
            final(self).panels() == old(self).panels(),
            final(self).dir() == old(self).dir(),
    {
        self.data.state = state;
    }

    /// Deep-merge `incoming` into the state JSON (see `json::merge`).
    pub fn merge_state(&mut self, incoming: &JsonValue)
        ensures
            final(self).state() == merge(old(self).state(), incoming@),
            final(self).transcript() == old(self).transcript(),
            final(self).panels() == old(self).panels(),
            final(self).dir() == old(self).dir(),
    {
        deep_merge(&mut self.data.state, incoming);
    }

    /// Set panel `name` to `body`.
    pub fn set_panel(&mut self, name: &str, body: String)
        ensures
            final(self).panels() == entry_put(old(self).panels(), name@, body),
            final(self).transcript() == old(self).transcript(),
            final(self).state() == old(self).state(),
            final(self).dir() == old(self).dir(),
    {
        self.data.panels.insert(to_owned_str(name), body);
    }
}

} // verus!
