//! Connected players (phones and browsers that joined by QR code): a token
//! per device, the character the DM assigned, an optional device label, and
//! when the device was first and last seen (nanoseconds since the epoch).

use vstd::prelude::*;
use crate::strmap::{StrMap, entry_get, entry_put, law_put_get};

verus! {

/// One connected player.
pub struct PlayerInfo {
    pub token: String,
    /// Slug of the assigned character, if the DM assigned one.
    pub character: Option<String>,
    /// Friendly device name the player's device sent.
    pub label: Option<String>,
    pub first_seen: i64,
    pub last_seen: i64,
}

/// `POST /api/players/announce` body.
pub struct AnnouncePayload {
    pub token: String,
    pub label: Option<String>,
}

/// `POST /api/players/{token}/assign` body: a slug, or none to unassign.
pub struct AssignPayload {
    pub character: Option<String>,
}

fn clone_opt(o: &Option<String>) -> (r: Option<String>)
    ensures
        r == *o,
{
    match o {
        Some(s) => Some(s.clone()),
        None => None,
    }
}

impl PlayerInfo {
    /// A copy of the record.
    pub fn copy(&self) -> (r: Self)
        ensures
            r == *self,
    {
        PlayerInfo {
            token: self.token.clone(),
            character: clone_opt(&self.character),
            label: clone_opt(&self.label),
            first_seen: self.first_seen,
            last_seen: self.last_seen,
        }
    }
}

/// The record after `token` is seen at `now` with `label`: a new player
/// with no character when unknown; otherwise last seen is updated, and the
/// label is filled in if the record had none.
pub open spec fn touched(old: Option<PlayerInfo>, token: String, label: Option<String>, now: i64) -> PlayerInfo {
    match old {
        Some(p) => PlayerInfo {
            last_seen: now,
            label: if p.label is None && label is Some {
                label
            } else {
                p.label
            },
            ..p
        },
        None => PlayerInfo {
            token: token,
            character: None,
            label: label,
            first_seen: now,
            last_seen: now,
        },
    }
}

/// The registry of connected players, by token.
pub struct Players {
    inner: StrMap<PlayerInfo>,
}

impl Players {
    /// Players by token, in token order.
    pub closed spec fn entries(&self) -> Seq<(Seq<char>, PlayerInfo)> {
        self.inner@
    }

    /// The record for `token`, if any.
    pub open spec fn player(&self, token: Seq<char>) -> Option<PlayerInfo> {
        entry_get(self.entries(), token)
    }

    /// No players.
    pub fn new() -> (p: Self)
        ensures
            p.entries().len() == 0,
    {
        Players { inner: StrMap::new() }
    }

    /// Record that `token` was seen at `now`, creating its entry when new;
    /// return the updated record.
    pub fn touch(&mut self, token: &str, label: Option<String>, now: i64) -> (r: PlayerInfo)
        ensures
            r == touched(old(self).player(token@), r.token, label, now),
            r.token@ == match old(self).player(token@) {
                Some(p) => p.token@,
                None => token@,
            },
            final(self).entries() == entry_put(old(self).entries(), token@, r),
    {
        let info = match self.inner.get(token) {
            Some(p) => {
                let mut q = p.copy();
                q.last_seen = now;
                if q.label.is_none() && label.is_some() {
                    q.label = label;
                }
                q
            },
            None => PlayerInfo {
                token: token.to_owned(),
                character: None,
                label: label,
                first_seen: now,
                last_seen: now,
            },
        };
        let out = info.copy();
        self.inner.insert(token.to_owned(), info);
        out
    }

    /// Set (or clear) the character of `token`; `None` when the token is
    /// unknown, which then changes nothing.
    pub fn assign_character(&mut self, token: &str, character: Option<String>) -> (r: Option<
        PlayerInfo,
    >)
        ensures
            match old(self).player(token@) {
                Some(p) => r == Some((PlayerInfo { character: character, ..p }))
                    && final(self).entries() == entry_put(old(self).entries(), token@, r.unwrap()),
                None => r is None && final(self).entries() == old(self).entries(),
            },
    {
        match self.inner.get(token) {
            Some(p) => {
                let mut q = p.copy();
                q.character = character;
                let out = q.copy();
                self.inner.insert(token.to_owned(), q);
                Some(out)
            },
            None => None,
        }
    }

    /// All players, in token order.
    pub fn list(&self) -> (r: Vec<PlayerInfo>)
        ensures
            r@.len() == self.entries().len(),
            forall|i: int| 0 <= i < r@.len() ==> #[trigger] r@[i] == self.entries()[i].1,
    {
        let mut out: Vec<PlayerInfo> = Vec::new();
        let mut i: usize = 0;
        while i < self.inner.len()
            invariant
                i <= self.entries().len(),
                self.entries() == self.inner@,
                out@.len() == i,
                forall|j: int| 0 <= j < i ==> #[trigger] out@[j] == self.entries()[j].1,
            decreases self.entries().len() - i,
        {
            let (_, p) = self.inner.entry(i);
            out.push(p.copy());
            i += 1;
        }
        out
    }

    /// The record of `token`.
    pub fn get(&self, token: &str) -> (r: Option<PlayerInfo>)
        ensures
            r == self.player(token@),
    {
        match self.inner.get(token) {
            Some(p) => Some(p.copy()),
            None => None,
        }
    }
}

// ───────────────────────── laws ─────────────────────────

/// Seeing a player again keeps when it was first seen and its character,
/// and moves last seen to now.
pub proof fn law_touch_keeps_history(old: PlayerInfo, token: String, label: Option<String>, now: i64)
    ensures
        touched(Some(old), token, label, now).first_seen == old.first_seen,
        touched(Some(old), token, label, now).character == old.character,
        touched(Some(old), token, label, now).last_seen == now,
        old.label is Some ==> touched(Some(old), token, label, now).label == old.label,
{
}

/// A player first seen has no character and was first and last seen now.
pub proof fn law_touch_new_player(token: String, label: Option<String>, now: i64)
    ensures
        touched(None, token, label, now).character is None,
        touched(None, token, label, now).first_seen == now,
        touched(None, token, label, now).last_seen == now,
        touched(None, token, label, now).label == label,
{
}

/// After a touch the player is registered with the returned record, and
/// other players are as they were.
pub proof fn law_touch_then_get(
    before: Seq<(Seq<char>, PlayerInfo)>,
    token: Seq<char>,
    r: PlayerInfo,
    q: Seq<char>,
)
    ensures
        entry_get(entry_put(before, token, r), q) == if q == token {
            Some(r)
        } else {
            entry_get(before, q)
        },
{
    law_put_get(before, token, r, q);
}

} // verus!
