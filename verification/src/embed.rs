//! The bundled stage UI: cache busting of the page's asset links, and the
//! content type of a static file.

use vstd::prelude::*;
use crate::text::{replace, replace_all, to_string};
use crate::fmt::{dec_int, i64_text};

verus! {

/// The page with `?v=<ts>` added to the stylesheet and script links, so a
/// browser fetches the assets of this build.
pub open spec fn busted_page(html: Seq<char>, ts: int) -> Seq<char> {
    replace_all(
        replace_all(html, "/static/style.css\""@, "/static/style.css?v="@ + dec_int(ts) + "\""@),
        "/static/stage.js\""@,
        "/static/stage.js?v="@ + dec_int(ts) + "\""@,
    )
}

/// Inject the cache-busting stamp `ts` (seconds since the epoch) into the
/// index page.
pub fn bust_cache(html: &str, ts: i64) -> (r: String)
    ensures
        r@ == busted_page(html@, ts as int),
{
    proof {
        reveal_strlit("/static/style.css\"");
        reveal_strlit("/static/stage.js\"");
    }
    let stamp = i64_text(ts);
    let mut css = to_string("/static/style.css?v=");
    css.append(stamp.as_str());
    css.append("\"");
    let a = replace(html, "/static/style.css\"", css.as_str());
    let mut js = to_string("/static/stage.js?v=");
    js.append(stamp.as_str());
    js.append("\"");
    replace(a.as_str(), "/static/stage.js\"", js.as_str())
}

/// The reply body when the index page is missing from the bundle.
pub const INDEX_MISSING: &'static str = "index.html not embedded";

/// What `mime_guess` guesses for `path`, as text (`application/octet-stream`
/// when it knows nothing better).
pub uninterp spec fn guessed_mime(path: Seq<char>) -> Seq<char>;

/// `mime_guess::from_path(path).first_or_octet_stream()`, as text. The
/// contract names the result, which depends on the path alone, and states
/// what the crate documents for a path without any dot (so without an
/// extension): `application/octet-stream`.
#[verifier::external_body]
fn guess_mime(path: &str) -> (r: String)
    ensures
        r@ == guessed_mime(path@),
        !path@.contains('.') ==> r@ == "application/octet-stream"@,
{
    mime_guess::from_path(path).first_or_octet_stream().as_ref().to_string()
}

/// The content type a static file is served with.
pub fn static_content_type(path: &str) -> (r: String)
    ensures
        r@ == guessed_mime(path@),
        !path@.contains('.') ==> r@ == "application/octet-stream"@,
{
    guess_mime(path)
}

/// The reply body for a static path that is not in the bundle.
pub fn not_found_text(path: &str) -> (r: String)
    ensures
        r@ == "not found: "@ + path@,
{
    let mut r = to_string("not found: ");
    r.append(path);
    r
}

} // verus!
