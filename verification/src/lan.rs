//! The join link phones use to reach the server, and its QR code.

use vstd::prelude::*;
use vstd::utf8::encode_utf8;
use crate::text::{chars_of, string_from_chars, slice_chars, strip_suffixes, strip_suffixes_index, to_string};
use crate::fmt::{dec, u64_text};

verus! {

/// The address phones should use: the configured one when it is a valid
/// address, else the one detected on the network, else loopback.
pub open spec fn lan_ip_choice(configured: Option<Seq<char>>, detected: Option<Seq<char>>) -> Seq<char> {
    match configured {
        Some(c) => c,
        None => match detected {
            Some(d) => d,
            None => "127.0.0.1"@,
        },
    }
}

/// Pick the LAN address from the configured address (already checked to
/// parse as an IP address; `None` when unset or invalid) and the detected
/// one (`None` when detection failed).
pub fn pick_lan_ip(configured: Option<String>, detected: Option<String>) -> (r: String)
    ensures
        r@ == lan_ip_choice(
            match configured {
                Some(c) => Some(c@),
                None => None,
            },
            match detected {
                Some(d) => Some(d@),
                None => None,
            },
        ),
{
    match configured {
        Some(c) => c,
        None => match detected {
            Some(d) => d,
            None => to_string("127.0.0.1"),
        },
    }
}

/// The join URL: the public URL with trailing slashes removed, when one is
/// configured; otherwise the LAN address and port over plain HTTP.
pub open spec fn join_url_text(ip: Seq<char>, port: nat, public_url: Option<Seq<char>>) -> Seq<char> {
    match public_url {
        Some(p) => strip_suffixes(p, "/"@) + "/join"@,
        None => "http://"@ + ip + ":"@ + dec(port) + "/join"@,
    }
}

/// The URL the QR code encodes. `ip` is the address as it prints;
/// `public_url` is the configured public URL, if any (it wins, for use
/// behind an HTTPS proxy).
pub fn join_url(ip: &str, port: u16, public_url: Option<&str>) -> (r: String)
    ensures
        r@ == join_url_text(
            ip@,
            port as nat,
            match public_url {
                Some(p) => Some(p@),
                None => None,
            },
        ),
{
    match public_url {
        Some(p) => {
            let v = chars_of(p);
            let slash = chars_of("/");
            let k = strip_suffixes_index(&v, v.len(), &slash);
            let t = slice_chars(&v, 0, k);
            proof {
                assert(v@.take(v@.len() as int) =~= v@);
                assert(t@ =~= v@.take(k as int));
            }
            let mut r = string_from_chars(t.as_slice());
            r.append("/join");
            r
        },
        None => {
            let mut r = to_string("http://");
            r.append(ip);
            r.append(":");
            let d = u64_text(port as u64);
            r.append(d.as_str());
            r.append("/join");
            r
        },
    }
}

/// What `qrcode` draws for `payload` as SVG at the given minimum size,
/// quiet zone and colours; `None` when the data cannot be encoded.
pub uninterp spec fn qr_svg_image(
    payload: Seq<u8>,
    min_px: u32,
    quiet_zone: bool,
    dark: Seq<char>,
    light: Seq<char>,
) -> Option<Seq<char>>;

/// `QrCode::new(payload)` of `qrcode`, then its SVG renderer with the given
/// minimum dimensions (square), quiet zone and colours. The contract only
/// names the result: a deterministic function of these arguments. The
/// renderer's size arithmetic is done in `u32` and overflows (panicking when
/// overflow is checked) for sizes near `u32::MAX`; the bound on `min_px`
/// keeps every product far below that for any QR code version.
#[verifier::external_body]
fn render_qr_svg(payload: &[u8], min_px: u32, quiet_zone: bool, dark: &str, light: &str) -> (r:
    Option<String>)
    requires
        min_px <= 1_048_576,
    ensures
        match r {
            Some(s) => qr_svg_image(payload@, min_px, quiet_zone, dark@, light@) == Some(s@),
            None => qr_svg_image(payload@, min_px, quiet_zone, dark@, light@) is None,
        },
{
    match qrcode::QrCode::new(payload) {
        Ok(code) => Some(
            code.render::<qrcode::render::svg::Color>()
                .min_dimensions(min_px, min_px)
                .quiet_zone(quiet_zone)
                .dark_color(qrcode::render::svg::Color(dark))
                .light_color(qrcode::render::svg::Color(light))
                .build(),
        ),
        Err(_) => None,
    }
}

/// The QR code's size: at least this many pixels a side.
pub const QR_MIN_PX: u32 = 320;

/// Dark modules of the QR code.
pub const QR_DARK: &'static str = "#0e1116";

/// Light modules of the QR code.
pub const QR_LIGHT: &'static str = "#ffffff";

/// The outcome of drawing the join QR code: the SVG, or the error when the
/// payload could not be encoded.
pub fn qr_result(svg: Option<String>) -> (r: Result<String, String>)
    ensures
        match svg {
            Some(s) => r matches Ok(t) && t@ == s@,
            None => r matches Err(e) && e@ == "encode QR"@,
        },
{
    match svg {
        Some(s) => Ok(s),
        None => Err(to_string("encode QR")),
    }
}

/// A QR code encoding `payload` as SVG, sized for the join dialog (about
/// 320 px, with a quiet zone); the error when it cannot be encoded.
pub fn qr_svg(payload: &str) -> (r: Result<String, String>)
    ensures
        match qr_svg_image(encode_utf8(payload@), QR_MIN_PX, true, QR_DARK@, QR_LIGHT@) {
            Some(s) => r matches Ok(t) && t@ == s,
            None => r matches Err(e) && e@ == "encode QR"@,
        },
{
    let bytes = payload.as_bytes();
    qr_result(render_qr_svg(bytes, QR_MIN_PX, true, QR_DARK, QR_LIGHT))
}

} // verus!
