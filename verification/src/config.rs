//! Settings for session sync to a GitHub content repository: which repo and
//! branch, and the access token. The token is kept in memory and in a
//! private file, never sent back over the API.

use vstd::prelude::*;
use crate::text::{chars_of, string_from_chars};

verus! {

/// Coordinates and credentials for the content repository.
pub struct GitHubConfig {
    /// `owner/repo`.
    pub repo: Option<String>,
    /// Branch to push to (`main` when unset).
    pub branch: Option<String>,
    /// Personal access token.
    pub pat: Option<String>,
}

/// The characters of an optional string.
pub open spec fn opt_view(o: Option<String>) -> Option<Seq<char>> {
    match o {
        Some(s) => Some(s@),
        None => None,
    }
}

/// How an update request changes a field: an empty string clears it, a
/// non-empty string sets it, no value leaves it as it was.
pub open spec fn updated_field(current: Option<Seq<char>>, req: Option<Seq<char>>) -> Option<
    Seq<char>,
> {
    match req {
        Some(v) => if v.len() == 0 {
            None
        } else {
            Some(v)
        },
        None => current,
    }
}

/// How an environment variable changes a field: a set variable wins, even
/// when empty.
pub open spec fn env_field(current: Option<Seq<char>>, env: Option<Seq<char>>) -> Option<Seq<char>> {
    match env {
        Some(v) => Some(v),
        None => current,
    }
}

/// Sending the same update twice leaves the settings as sending it once.
pub proof fn law_update_idempotent(current: Option<Seq<char>>, req: Option<Seq<char>>)
    ensures
        updated_field(updated_field(current, req), req) == updated_field(current, req),
{
}

/// An empty value clears a field, whatever it held.
pub proof fn law_empty_update_clears(current: Option<Seq<char>>)
    ensures
        updated_field(current, Some(Seq::<char>::empty())) is None,
{
}

fn apply_field(current: Option<String>, req: Option<String>) -> (r: Option<String>)
    ensures
        opt_view(r) == updated_field(opt_view(current), opt_view(req)),
{
    match req {
        Some(v) => if v.as_str().is_empty() {
            None
        } else {
            Some(v)
        },
        None => current,
    }
}

fn clone_opt(o: &Option<String>) -> (r: Option<String>)
    ensures
        r == *o,
{
    match o {
        Some(s) => Some(s.clone()),
        None => None,
    }
}

impl GitHubConfig {
    /// Nothing configured.
    pub fn default() -> (c: Self)
        ensures
            c.repo is None,
            c.branch is None,
            c.pat is None,
    {
        GitHubConfig { repo: None, branch: None, pat: None }
    }

    /// A copy of the settings.
    pub fn copy(&self) -> (c: Self)
        ensures
            c == *self,
    {
        GitHubConfig {
            repo: clone_opt(&self.repo),
            branch: clone_opt(&self.branch),
            pat: clone_opt(&self.pat),
        }
    }

    /// The branch to push to.
    pub fn branch_or_main(&self) -> (r: &str)
        ensures
            r@ == match self.branch {
                Some(b) => b@,
                None => "main"@,
            },
    {
        match &self.branch {
            Some(b) => b.as_str(),
            None => "main",
        }
    }

    /// Sync is possible: a repository and a token are both set.
    pub fn is_ready(&self) -> (r: bool)
        ensures
            r == (self.repo is Some && self.pat is Some),
    {
        self.repo.is_some() && self.pat.is_some()
    }

    /// Apply an update request (`ConfigStore::update`): for each field,
    /// `Some("")` clears it, `Some(v)` sets it, `None` leaves it as is.
    pub fn apply_update(&mut self, repo: Option<String>, branch: Option<String>, pat: Option<String>)
        ensures
            opt_view(final(self).repo) == updated_field(opt_view(old(self).repo), opt_view(repo)),
            opt_view(final(self).branch) == updated_field(
                opt_view(old(self).branch),
                opt_view(branch),
            ),
            opt_view(final(self).pat) == updated_field(opt_view(old(self).pat), opt_view(pat)),
    {
        let r = apply_field(clone_opt(&self.repo), repo);
        let b = apply_field(clone_opt(&self.branch), branch);
        let p = apply_field(clone_opt(&self.pat), pat);
        self.repo = r;
        self.branch = b;
        self.pat = p;
    }

    /// Let the environment override the stored settings (token, repo and
    /// branch variables, each when set).
    pub fn apply_env(&mut self, pat: Option<String>, repo: Option<String>, branch: Option<String>)
        ensures
            opt_view(final(self).repo) == env_field(opt_view(old(self).repo), opt_view(repo)),
            opt_view(final(self).branch) == env_field(opt_view(old(self).branch), opt_view(branch)),
            opt_view(final(self).pat) == env_field(opt_view(old(self).pat), opt_view(pat)),
    {
        if let Some(v) = pat {
            self.pat = Some(v);
        }
        if let Some(v) = repo {
            self.repo = Some(v);
        }
        if let Some(v) = branch {
            self.branch = Some(v);
        }
    }
}

/// `PathBuf::join`: an absolute `rel` replaces `base`; otherwise `rel` is
/// added after a `/`, unless `base` is empty or already ends in one.
pub open spec fn path_join(base: Seq<char>, rel: Seq<char>) -> Seq<char> {
    if rel.len() > 0 && rel[0] == '/' {
        rel
    } else if base.len() == 0 || base.last() == '/' {
        base + rel
    } else {
        base + "/"@ + rel
    }
}

/// `PathBuf::join` on path strings.
pub fn join_path(base: &str, rel: &str) -> (r: String)
    ensures
        r@ == path_join(base@, rel@),
{
    let bv = chars_of(base);
    let rv = chars_of(rel);
    if rv.len() > 0 && rv[0] == '/' {
        return string_from_chars(rv.as_slice());
    }
    let mut r = string_from_chars(bv.as_slice());
    if !(bv.len() == 0 || bv[bv.len() - 1] == '/') {
        r.append("/");
    }
    r.append(rel);
    r
}

/// Where the settings file lives: `$XDG_DATA_HOME`, else
/// `$HOME/.local/share` (`/root` when `HOME` is unset), then
/// `adventurer/config.json`.
pub open spec fn config_path(xdg: Option<Seq<char>>, home: Option<Seq<char>>) -> Seq<char> {
    let base = match xdg {
        Some(x) => x,
        None => path_join(
            match home {
                Some(h) => h,
                None => "/root"@,
            },
            ".local/share"@,
        ),
    };
    path_join(path_join(base, "adventurer"@), "config.json"@)
}

/// The settings file path from the values of `XDG_DATA_HOME` and `HOME`.
pub fn default_path(xdg_data_home: Option<&str>, home: Option<&str>) -> (r: String)
    ensures
        r@ == config_path(
            match xdg_data_home {
                Some(x) => Some(x@),
                None => None,
            },
            match home {
                Some(h) => Some(h@),
                None => None,
            },
        ),
{
    let base = match xdg_data_home {
        Some(x) => string_from_chars(chars_of(x).as_slice()),
        None => {
            let h = match home {
                Some(h) => h,
                None => "/root",
            };
            join_path(h, ".local/share")
        },
    };
    let a = join_path(base.as_str(), "adventurer");
    join_path(a.as_str(), "config.json")
}

} // verus!
