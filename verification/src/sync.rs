//! Pushing a session archive to a GitHub content repository as one commit,
//! through the REST git-data API:
//!
//!   1. GET the branch ref → head commit
//!   2. GET the head commit → its tree
//!   3. POST one blob per file
//!   4. POST a tree: the head's tree plus every file at its path
//!   5. POST a commit of that tree with the head as parent
//!   6. PATCH the branch ref to the new commit
//!
//! `PushSession` decides each request from the replies so far; the program
//! around it sends them.

use vstd::prelude::*;
use base64::Engine;
use crate::json::{
    JsonValue, JsonView, jv, jv_entries, jv_seq, lemma_jv_entries, lemma_jv_seq, field, str_field,
    get_field, get_str,
};
use crate::text::{chars_of, string_from_chars, strip_prefixes, strip_prefixes_index, slice_chars};

verus! {

/// The character of a six-bit value in the standard base64 alphabet
/// (RFC 4648, table 1).
pub open spec fn base64_digit(v: int) -> char {
    if v < 26 {
        ('A' as int + v) as char
    } else if v < 52 {
        ('a' as int + (v - 26)) as char
    } else if v < 62 {
        ('0' as int + (v - 52)) as char
    } else if v == 62 {
        '+'
    } else {
        '/'
    }
}

/// Standard base64 of `bytes` (RFC 4648, section 4): each group of three
/// bytes gives four characters; a last group of one or two bytes gives two
/// or three characters and `=` padding to four.
pub open spec fn base64_standard(bytes: Seq<u8>) -> Seq<char>
    decreases bytes.len(),
{
    if bytes.len() == 0 {
        seq![]
    } else if bytes.len() == 1 {
        let x = bytes[0] as int;
        seq![base64_digit(x / 4), base64_digit((x % 4) * 16), '=', '=']
    } else if bytes.len() == 2 {
        let x = bytes[0] as int * 256 + bytes[1] as int;
        seq![base64_digit(x / 1024), base64_digit((x / 16) % 64), base64_digit((x % 16) * 4), '=']
    } else {
        let x = bytes[0] as int * 65536 + bytes[1] as int * 256 + bytes[2] as int;
        seq![
            base64_digit(x / 262144),
            base64_digit((x / 4096) % 64),
            base64_digit((x / 64) % 64),
            base64_digit(x % 64),
        ] + base64_standard(bytes.skip(3))
    }
}

/// Whether `base64`'s size computation for `n` input bytes stays in range
/// (it panics otherwise).
pub open spec fn base64_len_ok(n: nat) -> bool {
    (n / 3) * 4 + (if n % 3 > 0 { 4nat } else { 0nat }) <= usize::MAX
}

/// Calls `base64::engine::general_purpose::STANDARD.encode`. Claimed: the
/// result is the standard, padded base64 text of the bytes, as
/// `base64_standard` spells it out.
#[verifier::external_body]
fn base64_encode(bytes: &[u8]) -> (r: String)
    requires
        base64_len_ok(bytes@.len()),
    ensures
        r@ == base64_standard(bytes@),
{
    base64::engine::general_purpose::STANDARD.encode(bytes)
}

/// Repository, branch and token to push with.
pub struct GitHubBackend {
    /// `owner/repo`.
    pub repo: String,
    pub branch: String,
    pub pat: String,
}

/// One file of the archive.
pub struct PushFile {
    /// Repository-relative path.
    pub path: String,
    pub content: Vec<u8>,
}

/// What a finished push made.
pub struct PushResult {
    pub commit_sha: String,
    pub commit_url: String,
    pub files: usize,
}

/// Why a push did not start.
pub enum SyncError {
    /// There were no files.
    NothingToPush,
}

/// HTTP method of an API call.
pub enum Method {
    Get,
    Post,
    Patch,
}

/// One API call: method, URL, and JSON body for POST and PATCH.
pub struct ApiRequest {
    pub method: Method,
    pub url: String,
    pub body: Option<JsonValue>,
}

/// The body of a request, as a view.
pub open spec fn body_view(b: Option<JsonValue>) -> Option<JsonView> {
    match b {
        Some(v) => Some(v@),
        None => None,
    }
}

/// `https://api.github.com/repos/{repo}/{path}` with leading slashes of
/// `path` dropped.
pub open spec fn api_url(repo: Seq<char>, path: Seq<char>) -> Seq<char> {
    "https://api.github.com/repos/"@ + repo + "/"@ + strip_prefixes(path, "/"@)
}

fn jstr(s: &str) -> (v: JsonValue)
    ensures
        v@ == JsonView::Str(s@),
{
    JsonValue::Str(s.to_owned())
}

fn jobj2(k1: &str, v1: JsonValue, k2: &str, v2: JsonValue) -> (v: JsonValue)
    ensures
        v@ == JsonView::Object(seq![(k1@, v1@), (k2@, v2@)]),
{
    let mut es: Vec<(String, JsonValue)> = Vec::new();
    es.push((k1.to_owned(), v1));
    es.push((k2.to_owned(), v2));
    proof {
        lemma_jv_entries(es@);
        assert(jv_entries(es@).len() == 2);
        assert(jv_entries(es@)[0] == (k1@, jv(v1)));
        assert(jv_entries(es@) =~= seq![(k1@, v1@), (k2@, v2@)]);
    }
    let v = JsonValue::Object(es);
    v
}

fn jobj3(k1: &str, v1: JsonValue, k2: &str, v2: JsonValue, k3: &str, v3: JsonValue) -> (v:
    JsonValue)
    ensures
        v@ == JsonView::Object(seq![(k1@, v1@), (k2@, v2@), (k3@, v3@)]),
{
    let mut es: Vec<(String, JsonValue)> = Vec::new();
    es.push((k1.to_owned(), v1));
    es.push((k2.to_owned(), v2));
    es.push((k3.to_owned(), v3));
    proof {
        lemma_jv_entries(es@);
        assert(jv_entries(es@) =~= seq![(k1@, v1@), (k2@, v2@), (k3@, v3@)]);
    }
    JsonValue::Object(es)
}

/// Body of a blob creation.
pub open spec fn blob_body(content: Seq<u8>) -> JsonView {
    JsonView::Object(
        seq![
            ("content"@, JsonView::Str(base64_standard(content))),
            ("encoding"@, JsonView::Str("base64"@)),
        ],
    )
}

/// One entry of the new tree: a regular file at `path` with blob `sha`.
pub open spec fn tree_entry(path: Seq<char>, sha: Seq<char>) -> JsonView {
    JsonView::Object(
        seq![
            ("mode"@, JsonView::Str("100644"@)),
            ("path"@, JsonView::Str(path)),
            ("sha"@, JsonView::Str(sha)),
            ("type"@, JsonView::Str("blob"@)),
        ],
    )
}

/// Body of the tree creation: the base tree plus one entry per file.
pub open spec fn tree_body(base: Seq<char>, paths: Seq<Seq<char>>, shas: Seq<Seq<char>>) -> JsonView {
    JsonView::Object(
        seq![
            ("base_tree"@, JsonView::Str(base)),
            ("tree"@, JsonView::Array(Seq::new(paths.len(), |i: int| tree_entry(paths[i], shas[i])))),
        ],
    )
}

/// Body of the commit creation.
pub open spec fn commit_body(message: Seq<char>, tree: Seq<char>, parent: Seq<char>) -> JsonView {
    JsonView::Object(
        seq![
            ("message"@, JsonView::Str(message)),
            ("parents"@, JsonView::Array(seq![JsonView::Str(parent)])),
            ("tree"@, JsonView::Str(tree)),
        ],
    )
}

/// Body of the ref update: the new commit, no force.
pub open spec fn update_ref_body(commit: Seq<char>) -> JsonView {
    JsonView::Object(
        seq![("force"@, JsonView::Bool(false)), ("sha"@, JsonView::Str(commit))],
    )
}

impl GitHubBackend {
    /// URL of a repository API path.
    pub fn url(&self, path: &str) -> (r: String)
        ensures
            r@ == api_url(self.repo@, path@),
    {
        let pv = chars_of(path);
        let slash = chars_of("/");
        let k = strip_prefixes_index(&pv, &slash);
        let rest = slice_chars(&pv, k, pv.len());
        let mut r = string_from_chars(&[]);
        r.append("https://api.github.com/repos/");
        r.append(self.repo.as_str());
        r.append("/");
        let rs = string_from_chars(rest.as_slice());
        r.append(rs.as_str());
        assert(rest@ =~= pv@.skip(k as int));
        assert(r@ =~= api_url(self.repo@, path@));
        r
    }

    /// `Authorization` header value.
    pub fn auth_header(&self) -> (r: String)
        ensures
            r@ == "Bearer "@ + self.pat@,
    {
        let mut r = string_from_chars(&[]);
        r.append("Bearer ");
        r.append(self.pat.as_str());
        r
    }

    fn path_with(&self, prefix: &str, tail: &str) -> (r: String)
        ensures
            r@ == api_url(self.repo@, prefix@ + tail@),
    {
        let mut p = string_from_chars(&[]);
        p.append(prefix);
        p.append(tail);
        self.url(p.as_str())
    }

    /// Step 1: read the branch ref.
    pub fn ref_request(&self) -> (r: ApiRequest)
        ensures
            r.method is Get,
            r.url@ == api_url(self.repo@, "git/ref/heads/"@ + self.branch@),
            r.body is None,
    {
        ApiRequest {
            method: Method::Get,
            url: self.path_with("git/ref/heads/", self.branch.as_str()),
            body: None,
        }
    }

    /// Step 2: read commit `sha`.
    pub fn commit_request(&self, sha: &str) -> (r: ApiRequest)
        ensures
            r.method is Get,
            r.url@ == api_url(self.repo@, "git/commits/"@ + sha@),
            r.body is None,
    {
        ApiRequest { method: Method::Get, url: self.path_with("git/commits/", sha), body: None }
    }

    /// Step 3: create a blob holding `content`.
    pub fn blob_request(&self, content: &[u8]) -> (r: ApiRequest)
        requires
            base64_len_ok(content@.len()),
        ensures
            r.method is Post,
            r.url@ == api_url(self.repo@, "git/blobs"@),
            body_view(r.body) == Some(blob_body(content@)),
    {
        let b64 = base64_encode(content);
        let body = jobj2("content", JsonValue::Str(b64), "encoding", jstr("base64"));
        ApiRequest { method: Method::Post, url: self.url("git/blobs"), body: Some(body) }
    }

    /// Step 4: create a tree on `base` with each file path at its blob.
    pub fn tree_request(&self, base: &str, files: &Vec<PushFile>, shas: &Vec<String>) -> (r:
        ApiRequest)
        requires
            files@.len() == shas@.len(),
        ensures
            r.method is Post,
            r.url@ == api_url(self.repo@, "git/trees"@),
            body_view(r.body) == Some(
                tree_body(
                    base@,
                    files@.map_values(|f: PushFile| f.path@),
                    shas@.map_values(|s: String| s@),
                ),
            ),
    {
        let mut entries: Vec<JsonValue> = Vec::new();
        let ghost paths = files@.map_values(|f: PushFile| f.path@);
        let ghost svs = shas@.map_values(|s: String| s@);
        let mut i: usize = 0;
        while i < files.len()
            invariant
                i <= files@.len(),
                files@.len() == shas@.len(),
                paths == files@.map_values(|f: PushFile| f.path@),
                svs == shas@.map_values(|s: String| s@),
                entries@.len() == i,
                forall|j: int|
                    0 <= j < i ==> #[trigger] entries@[j]@ == tree_entry(paths[j], svs[j]),
            decreases files@.len() - i,
        {
            let mut es: Vec<(String, JsonValue)> = Vec::new();
            es.push(("mode".to_owned(), jstr("100644")));
            es.push(("path".to_owned(), JsonValue::Str(files[i].path.clone())));
            es.push(("sha".to_owned(), JsonValue::Str(shas[i].clone())));
            es.push(("type".to_owned(), jstr("blob")));
            proof {
                lemma_jv_entries(es@);
                assert(jv_entries(es@) =~= seq![
                    ("mode"@, JsonView::Str("100644"@)),
                    ("path"@, JsonView::Str(paths[i as int])),
                    ("sha"@, JsonView::Str(svs[i as int])),
                    ("type"@, JsonView::Str("blob"@)),
                ]);
            }
            let e = JsonValue::Object(es);
            entries.push(e);
            i += 1;
        }
        proof {
            lemma_jv_seq(entries@);
            assert(paths.len() == entries@.len());
            assert forall|j: int| 0 <= j < entries@.len() implies #[trigger] jv_seq(entries@)[j]
                == tree_entry(paths[j], svs[j]) by {
                assert(jv_seq(entries@)[j] == jv(entries@[j]));
                assert(entries@[j]@ == tree_entry(paths[j], svs[j]));
            }
            assert(jv_seq(entries@) =~= Seq::new(paths.len(), |j: int| tree_entry(paths[j], svs[j])));
        }
        let arr = JsonValue::Array(entries);
        let body = jobj2("base_tree", jstr(base), "tree", arr);
        ApiRequest { method: Method::Post, url: self.url("git/trees"), body: Some(body) }
    }

    /// Step 5: create a commit of `tree` with parent `parent`.
    pub fn new_commit_request(&self, message: &str, tree: &str, parent: &str) -> (r: ApiRequest)
        ensures
            r.method is Post,
            r.url@ == api_url(self.repo@, "git/commits"@),
            body_view(r.body) == Some(commit_body(message@, tree@, parent@)),
    {
        let mut ps: Vec<JsonValue> = Vec::new();
        ps.push(jstr(parent));
        proof {
            lemma_jv_seq(ps@);
            assert(jv_seq(ps@) =~= seq![JsonView::Str(parent@)]);
        }
        let parents = JsonValue::Array(ps);
        let body = jobj3("message", jstr(message), "parents", parents, "tree", jstr(tree));
        ApiRequest { method: Method::Post, url: self.url("git/commits"), body: Some(body) }
    }

    /// Step 6: point the branch at `commit`.
    pub fn update_ref_request(&self, commit: &str) -> (r: ApiRequest)
        ensures
            r.method is Patch,
            r.url@ == api_url(self.repo@, "git/refs/heads/"@ + self.branch@),
            body_view(r.body) == Some(update_ref_body(commit@)),
    {
        let body = jobj2("force", JsonValue::Bool(false), "sha", jstr(commit));
        ApiRequest {
            method: Method::Patch,
            url: self.path_with("git/refs/heads/", self.branch.as_str()),
            body: Some(body),
        }
    }

    /// The web page of commit `sha`.
    pub fn commit_page(&self, sha: &str) -> (r: String)
        ensures
            r@ == "https://github.com/"@ + self.repo@ + "/commit/"@ + sha@,
    {
        let mut r = string_from_chars(&[]);
        r.append("https://github.com/");
        r.append(self.repo.as_str());
        r.append("/commit/");
        r.append(sha);
        r
    }
}

/// Where a push stands.
pub enum PushPhase {
    ReadRef,
    ReadCommit,
    Blobs,
    Tree,
    Commit,
    UpdateRef,
    Done,
    /// A request failed: nothing more is sent, and the branch is left as
    /// it was unless the failed request was the ref update itself.
    Failed,
}

/// A push in progress: the request to send next follows from the replies
/// received so far.
pub struct PushSession {
    backend: GitHubBackend,
    message: String,
    files: Vec<PushFile>,
    head: String,
    parent_tree: String,
    blob_shas: Vec<String>,
    new_tree: String,
    new_commit: String,
    phase: PushPhase,
}

/// Paths of the files.
pub open spec fn paths_of(files: Seq<PushFile>) -> Seq<Seq<char>> {
    files.map_values(|f: PushFile| f.path@)
}

/// Character views of strings.
pub open spec fn strs_of(s: Seq<String>) -> Seq<Seq<char>> {
    s.map_values(|x: String| x@)
}

fn clone_backend(b: &GitHubBackend) -> (r: GitHubBackend)
    ensures
        r == *b,
{
    GitHubBackend { repo: b.repo.clone(), branch: b.branch.clone(), pat: b.pat.clone() }
}

impl PushSession {
    /// The session's own bookkeeping: one blob SHA per file sent so far,
    /// all of them once the blobs are done.
    pub closed spec fn wf(&self) -> bool {
        &&& self.files@.len() > 0
        &&& forall|i: int| 0 <= i < self.files@.len() ==> base64_len_ok(#[trigger] self.files@[i].content@.len())
        &&& self.blob_shas@.len() <= self.files@.len()
        &&& (self.phase is ReadRef || self.phase is ReadCommit) ==> self.blob_shas@.len() == 0
        &&& self.phase is Blobs ==> self.blob_shas@.len() < self.files@.len()
        &&& (self.phase is Tree || self.phase is Commit || self.phase is UpdateRef || self.phase is Done)
            ==> self.blob_shas@.len() == self.files@.len()
    }

    pub closed spec fn phase(&self) -> PushPhase {
        self.phase
    }

    pub closed spec fn repo(&self) -> GitHubBackend {
        self.backend
    }

    pub closed spec fn message(&self) -> Seq<char> {
        self.message@
    }

    pub closed spec fn files(&self) -> Seq<PushFile> {
        self.files@
    }

    /// The branch head the push builds on (once read).
    pub closed spec fn head(&self) -> Seq<char> {
        self.head@
    }

    /// The head commit's tree (once read).
    pub closed spec fn parent_tree(&self) -> Seq<char> {
        self.parent_tree@
    }

    /// Blob SHAs received so far, one per file in order.
    pub closed spec fn blob_shas(&self) -> Seq<Seq<char>> {
        strs_of(self.blob_shas@)
    }

    pub closed spec fn new_tree(&self) -> Seq<char> {
        self.new_tree@
    }

    pub closed spec fn new_commit(&self) -> Seq<char> {
        self.new_commit@
    }

    /// Requests still to be sent: two reads, a blob per file not yet
    /// stored, then the tree, the commit and the ref update.
    pub open spec fn requests_left(&self) -> nat {
        match self.phase() {
            PushPhase::ReadRef => self.files().len() + 5,
            PushPhase::ReadCommit => self.files().len() + 4,
            PushPhase::Blobs => (self.files().len() - self.blob_shas().len()) as nat + 3,
            PushPhase::Tree => 3,
            PushPhase::Commit => 2,
            PushPhase::UpdateRef => 1,
            PushPhase::Done => 0,
            PushPhase::Failed => 0,
        }
    }

    /// Start a push of `files` with commit `message`; refused when there is
    /// nothing to push.
    pub fn start(backend: &GitHubBackend, message: &str, files: Vec<PushFile>) -> (r: Result<
        PushSession,
        SyncError,
    >)
        requires
            forall|i: int| 0 <= i < files@.len() ==> base64_len_ok(#[trigger] files@[i].content@.len()),
        ensures
            files@.len() == 0 <==> r is Err,
            r matches Ok(p) ==> p.wf() && p.phase() is ReadRef && p.files() == files@ && p.repo() == *backend
                && p.message() == message@ && p.blob_shas().len() == 0 && p.requests_left() == files@.len() + 5,
    {
        if files.len() == 0 {
            return Err(SyncError::NothingToPush);
        }
        let p = PushSession {
            backend: clone_backend(backend),
            message: message.to_owned(),
            files,
            head: String::new(),
            parent_tree: String::new(),
            blob_shas: Vec::new(),
            new_tree: String::new(),
            new_commit: String::new(),
            phase: PushPhase::ReadRef,
        };
        assert(p.blob_shas() =~= Seq::<Seq<char>>::empty());
        Ok(p)
    }

    /// The request to send next, or `None` when the push is done.
    pub fn next_request(&self) -> (r: Option<ApiRequest>)
        requires
            self.wf(),
        ensures
            r is Some <==> self.requests_left() > 0,
            self.phase() is Tree ==> self.blob_shas().len() == self.files().len(),
            match self.phase() {
                PushPhase::ReadRef => r matches Some(q) && q.method is Get && q.url@ == api_url(
                    self.repo().repo@,
                    "git/ref/heads/"@ + self.repo().branch@,
                ),
                PushPhase::ReadCommit => r matches Some(q) && q.method is Get && q.url@ == api_url(
                    self.repo().repo@,
                    "git/commits/"@ + self.head(),
                ),
                PushPhase::Blobs => r matches Some(q) && q.method is Post && q.url@ == api_url(
                    self.repo().repo@,
                    "git/blobs"@,
                ) && body_view(q.body) == Some(
                    blob_body(self.files()[self.blob_shas().len() as int].content@),
                ),
                PushPhase::Tree => r matches Some(q) && q.method is Post && q.url@ == api_url(
                    self.repo().repo@,
                    "git/trees"@,
                ) && body_view(q.body) == Some(
                    tree_body(self.parent_tree(), paths_of(self.files()), self.blob_shas()),
                ),
                PushPhase::Commit => r matches Some(q) && q.method is Post && q.url@ == api_url(
                    self.repo().repo@,
                    "git/commits"@,
                ) && body_view(q.body) == Some(
                    commit_body(self.message(), self.new_tree(), self.head()),
                ),
                PushPhase::UpdateRef => r matches Some(q) && q.method is Patch && q.url@ == api_url(
                    self.repo().repo@,
                    "git/refs/heads/"@ + self.repo().branch@,
                ) && body_view(q.body) == Some(update_ref_body(self.new_commit())),
                PushPhase::Done => r is None,
                PushPhase::Failed => r is None,
            },
    {
        match self.phase {
            PushPhase::ReadRef => Some(self.backend.ref_request()),
            PushPhase::ReadCommit => Some(self.backend.commit_request(self.head.as_str())),
            PushPhase::Blobs => {
                let k = self.blob_shas.len();
                Some(self.backend.blob_request(self.files[k].content.as_slice()))
            },
            PushPhase::Tree => {
                let q = self.backend.tree_request(self.parent_tree.as_str(), &self.files, &self.blob_shas);
                Some(q)
            },
            PushPhase::Commit => Some(
                self.backend.new_commit_request(
                    self.message.as_str(),
                    self.new_tree.as_str(),
                    self.head.as_str(),
                ),
            ),
            PushPhase::UpdateRef => Some(self.backend.update_ref_request(self.new_commit.as_str())),
            PushPhase::Done => None,
            PushPhase::Failed => None,
        }
    }

    /// Take the SHA the last request returned (for the ref update, any
    /// text: its success is all that counts) and move on.
    pub fn on_reply(&mut self, sha: String)
        requires
            old(self).wf(),
        ensures
            final(self).wf(),
            old(self).requests_left() > 0 ==> final(self).requests_left() == old(self).requests_left() - 1,
            final(self).repo() == old(self).repo(),
            final(self).message() == old(self).message(),
            final(self).files() == old(self).files(),
            match old(self).phase() {
                PushPhase::ReadRef => final(self).phase() is ReadCommit && final(self).head() == sha@
                    && final(self).blob_shas() == old(self).blob_shas(),
                PushPhase::ReadCommit => final(self).phase() is Blobs && final(self).parent_tree()
                    == sha@ && final(self).head() == old(self).head() && final(self).blob_shas()
                    == old(self).blob_shas(),
                PushPhase::Blobs => final(self).blob_shas() == old(self).blob_shas().push(sha@)
                    && final(self).head() == old(self).head() && final(self).parent_tree() == old(
                    self,
                ).parent_tree() && if final(self).blob_shas().len() == old(self).files().len() {
                    final(self).phase() is Tree
                } else {
                    final(self).phase() is Blobs
                },
                PushPhase::Tree => final(self).phase() is Commit && final(self).new_tree() == sha@
                    && final(self).head() == old(self).head() && final(self).blob_shas() == old(
                    self,
                ).blob_shas(),
                PushPhase::Commit => final(self).phase() is UpdateRef && final(self).new_commit()
                    == sha@ && final(self).head() == old(self).head(),
                PushPhase::UpdateRef => final(self).phase() is Done && final(self).new_commit()
                    == old(self).new_commit(),
                PushPhase::Done => final(self).phase() is Done && final(self).new_commit() == old(
                    self,
                ).new_commit(),
                PushPhase::Failed => final(self).phase() is Failed,
            },
    {
        match self.phase {
            PushPhase::ReadRef => {
                self.head = sha;
                self.phase = PushPhase::ReadCommit;
            },
            PushPhase::ReadCommit => {
                self.parent_tree = sha;
                self.phase = PushPhase::Blobs;
            },
            PushPhase::Blobs => {
                let ghost before = self.blob_shas@;
                self.blob_shas.push(sha);
                assert(strs_of(self.blob_shas@) =~= strs_of(before).push(self.blob_shas@.last()@));
                if self.blob_shas.len() == self.files.len() {
                    self.phase = PushPhase::Tree;
                }
            },
            PushPhase::Tree => {
                self.new_tree = sha;
                self.phase = PushPhase::Commit;
            },
            PushPhase::Commit => {
                self.new_commit = sha;
                self.phase = PushPhase::UpdateRef;
            },
            PushPhase::UpdateRef => {
                self.phase = PushPhase::Done;
            },
            PushPhase::Done => {},
            PushPhase::Failed => {},
        }
    }

    /// Record that the last request failed. The push stops there: no
    /// request follows (`next_request` is `None`), later replies change
    /// nothing, and there is no result. In particular, a failure before the
    /// ref update means the branch is never moved.
    pub fn fail(&mut self)
        requires
            old(self).wf(),
        ensures
            final(self).wf(),
            final(self).phase() is Failed,
            final(self).requests_left() == 0,
            final(self).repo() == old(self).repo(),
            final(self).files() == old(self).files(),
            final(self).message() == old(self).message(),
    {
        self.phase = PushPhase::Failed;
    }

    /// Where the SHA a reply carries is found at this phase: under
    /// `object.sha` for the ref, `tree.sha` for the head commit, `sha` for
    /// what was created; the ref update's reply is not read.
    pub open spec fn reply_sha(&self, reply: JsonView) -> Option<Seq<char>> {
        match self.phase() {
            PushPhase::ReadRef => match field(reply, "object"@) {
                Some(o) => str_field(o, "sha"@),
                None => None,
            },
            PushPhase::ReadCommit => match field(reply, "tree"@) {
                Some(t) => str_field(t, "sha"@),
                None => None,
            },
            PushPhase::UpdateRef => Some(seq![]),
            PushPhase::Done => Some(seq![]),
            PushPhase::Failed => Some(seq![]),
            _ => str_field(reply, "sha"@),
        }
    }

    /// Read the SHA out of the reply to the last request (`None` when the
    /// reply lacks it, which fails the push).
    pub fn sha_in(&self, reply: &JsonValue) -> (r: Option<String>)
        ensures
            match r {
                Some(s) => self.reply_sha(reply@) == Some(s@),
                None => self.reply_sha(reply@) is None,
            },
    {
        match self.phase {
            PushPhase::ReadRef => match get_field(reply, "object") {
                Some(o) => get_str(o, "sha"),
                None => None,
            },
            PushPhase::ReadCommit => match get_field(reply, "tree") {
                Some(t) => get_str(t, "sha"),
                None => None,
            },
            PushPhase::UpdateRef => Some(String::new()),
            PushPhase::Done => Some(String::new()),
            PushPhase::Failed => Some(String::new()),
            _ => get_str(reply, "sha"),
        }
    }

    /// Where each step's SHA comes from in GitHub's reply, whatever else
    /// the reply holds. Reading the ref gives the SHA under `object`;
    /// reading the head commit gives the SHA of its tree (the base of the
    /// new tree, not the commit's own `sha`); creating a blob, the tree or
    /// the commit gives the top-level `sha`. Two replies that agree on that
    /// place give the same SHA, and a reply without it fails the step.
    pub proof fn law_reply_sha_source(&self, reply: JsonView, other: JsonView)
        ensures
            forall|o: JsonView, sha: Seq<char>|
                self.phase() is ReadRef && field(reply, "object"@) == Some(o) && str_field(
                    o,
                    "sha"@,
                ) == Some(sha) ==> self.reply_sha(reply) == Some(sha),
            self.phase() is ReadRef && field(reply, "object"@) is None ==> self.reply_sha(
                reply,
            ) is None,
            self.phase() is ReadRef && field(reply, "object"@) == field(other, "object"@)
                ==> self.reply_sha(reply) == self.reply_sha(other),
            forall|t: JsonView, sha: Seq<char>|
                self.phase() is ReadCommit && field(reply, "tree"@) == Some(t) && str_field(
                    t,
                    "sha"@,
                ) == Some(sha) ==> self.reply_sha(reply) == Some(sha),
            self.phase() is ReadCommit && field(reply, "tree"@) is None ==> self.reply_sha(
                reply,
            ) is None,
            self.phase() is ReadCommit && field(reply, "tree"@) == field(other, "tree"@)
                ==> self.reply_sha(reply) == self.reply_sha(other),
            (self.phase() is Blobs || self.phase() is Tree || self.phase() is Commit)
                ==> self.reply_sha(reply) == str_field(reply, "sha"@),
    {
    }

    /// What the push made, once done.
    pub fn result(&self) -> (r: Option<PushResult>)
        ensures
            self.phase() is Done <==> r is Some,
            r matches Some(res) ==> res.commit_sha@ == self.new_commit() && res.commit_url@
                == "https://github.com/"@ + self.repo().repo@ + "/commit/"@ + self.new_commit()
                && res.files == self.files().len(),
    {
        match self.phase {
            PushPhase::Done => Some(
                PushResult {
                    commit_sha: self.new_commit.clone(),
                    commit_url: self.backend.commit_page(self.new_commit.as_str()),
                    files: self.files.len(),
                },
            ),
            _ => None,
        }
    }
}

} // verus!
