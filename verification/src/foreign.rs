//! The calls this library makes into other crates and into parts of std
//! that carry no specification, each with the contract it is trusted to
//! meet. Results that take more than a few lines to describe are given a
//! name: the same arguments always give the same result.
use vstd::prelude::*;
use std::hash::{Hash, Hasher};
use crate::qr_service::{qr_png_size_ok, qr_size_ok, QrFailure, QrServiceError};
use qrcode::types::QrError;

verus! {

/// The text that `percent_encoding::percent_decode_str(s).decode_utf8_lossy()`
/// yields: every `%` followed by two hexadecimal digits becomes that byte,
/// and the bytes are read as UTF-8 with invalid sequences replaced.
pub uninterp spec fn percent_decoded(s: Seq<char>) -> Seq<char>;

/// Percent-decodes `s` with `percent_encoding::percent_decode_str` and
/// `decode_utf8_lossy`. Trusted: the result is `percent_decoded(s)`, and a
/// text without `%` comes back unchanged (its bytes are copied as they are
/// and are valid UTF-8).
#[verifier::external_body]
pub(crate) fn percent_decode(s: &str) -> (r: String)
    ensures
        r@ == percent_decoded(s@),
        !s@.contains('%') ==> r@ == s@,
{
    percent_encoding::percent_decode_str(s).decode_utf8_lossy().to_string()
}

/// The text of `std::path::Path::new(p).parent()`: the path without its
/// final component, `None` for a path that ends in the root or is empty.
pub uninterp spec fn parent_text(p: Seq<char>) -> Option<Seq<char>>;

/// Calls `std::path::Path::parent` on `p`. Trusted: the result is
/// `parent_text(p)`, and the empty path has no parent (as the documentation
/// of `Path::parent` says).
#[verifier::external_body]
pub(crate) fn path_parent(p: &str) -> (r: Option<String>)
    ensures
        r is Some == parent_text(p@) is Some,
        r matches Some(s) ==> s@ == parent_text(p@)->0,
        p@.len() == 0 ==> r is None,
{
    std::path::Path::new(p).parent().map(|q| q.to_string_lossy().to_string())
}

/// The text of `chrono::DateTime::from_timestamp(secs, 0)` formatted with
/// `pattern`, `None` when `secs` is out of chrono's range.
pub uninterp spec fn utc_text(secs: i64, pattern: Seq<char>) -> Option<Seq<char>>;

/// The date-and-time pattern `%Y-%m-%d %H:%M:%S`, which chrono can always
/// render.
pub open spec fn date_time_pattern() -> Seq<char> {
    "%Y-%m-%d %H:%M:%S"@
}

/// Formats the UTC time `secs` seconds after the Unix epoch with chrono's
/// `DateTime::from_timestamp` and `format`. Trusted: the result is
/// `utc_text(secs, pattern)`. Only the pattern `date_time_pattern()` is
/// admitted: rendering a pattern chrono cannot parse would panic.
#[verifier::external_body]
pub(crate) fn format_utc(secs: i64, pattern: &str) -> (r: Option<String>)
    requires
        pattern@ == date_time_pattern(),
    ensures
        r is Some == utc_text(secs, pattern@) is Some,
        r matches Some(s) ==> s@ == utc_text(secs, pattern@)->0,
{
    chrono::DateTime::from_timestamp(secs, 0).map(|dt| dt.format(pattern).to_string())
}

/// The media type that `mime_guess::from_path(p).first_or_octet_stream()`
/// gives, from the extension of `p`.
pub uninterp spec fn guessed_mime(p: Seq<char>) -> Seq<char>;

/// Guesses the media type of a file from its path with `mime_guess`.
/// Trusted: the result is `guessed_mime(p)`.
#[verifier::external_body]
pub(crate) fn mime_for_path(p: &str) -> (r: String)
    ensures
        r@ == guessed_mime(p@),
{
    mime_guess::from_path(p).first_or_octet_stream().to_string()
}

/// The machine's local IP address in text form, found with
/// `local_ip_address::local_ip`. Trusted: nothing is claimed of the result,
/// which depends on the machine's network configuration.
#[verifier::external_body]
pub fn get_local_ip() -> (r: Option<String>) {
    local_ip_address::local_ip().ok().map(|ip| ip.to_string())
}

/// What `qrcode::QrCode::new` refuses the bytes of `data` for: `None` when
/// it encodes them (at the medium error correction level, in the smallest
/// version that fits), else the kind of its `QrError`.
pub uninterp spec fn qr_refusal(data: Seq<char>) -> Option<QrFailure>;

/// `qrcode::QrCode::new` accepts the bytes of `data`.
pub open spec fn qr_encodable(data: Seq<char>) -> bool {
    qr_refusal(data) is None
}

/// The SVG document that `qrcode` renders for `data`, at least `size`
/// pixels wide and high, with the given dark and light colours.
pub uninterp spec fn qr_svg_text(data: Seq<char>, size: u32, dark: Seq<char>, light: Seq<char>) -> Seq<
    char,
>;

/// What the `image` crate's PNG writer gives for the QR code of `data`
/// rendered in grey levels at least `size` pixels wide and high: the bytes
/// of the file, or the message of the `ImageError` that writing ended in.
pub uninterp spec fn qr_png_data(data: Seq<char>, size: u32) -> Result<Seq<u8>, Seq<char>>;

/// Encodes `data` with `qrcode::QrCode::new` and renders it as SVG with
/// `render().min_dimensions(size, size).dark_color(..).light_color(..)
/// .build()`. Trusted: it fails exactly when `qr_refusal(data)` names a
/// failure, with that failure, and the document is
/// `qr_svg_text(data, size, dark, light)`. `min_dimensions` adds up to 184
/// to `size` in `u32` (a code is at most 185 modules wide with its quiet
/// zone), so larger sizes are left out.
#[verifier::external_body]
pub(crate) fn render_qr_svg(data: &str, size: u32, dark: &str, light: &str) -> (r: Result<String, QrFailure>)
    requires
        qr_size_ok(size),
    ensures
        r is Ok == qr_encodable(data@),
        r matches Err(f) ==> qr_refusal(data@) == Some(f),
        r matches Ok(s) ==> s@ == qr_svg_text(data@, size, dark@, light@),
{
    let code = match qrcode::QrCode::new(data.as_bytes()) {
        Ok(c) => c,
        Err(e) => return Err(match e {
            QrError::DataTooLong => QrFailure::DataTooLong,
            QrError::InvalidVersion => QrFailure::InvalidVersion,
            QrError::UnsupportedCharacterSet => QrFailure::UnsupportedCharacterSet,
            QrError::InvalidEciDesignator => QrFailure::InvalidEciDesignator,
            QrError::InvalidCharacter => QrFailure::InvalidCharacter,
        }),
    };
    let (dark, light) = (qrcode::render::svg::Color(dark), qrcode::render::svg::Color(light));
    Ok(code.render().min_dimensions(size, size).dark_color(dark).light_color(light).build())
}

/// Encodes `data` with `qrcode::QrCode::new`, renders it with
/// `render::<image::Luma<u8>>().min_dimensions(size, size).build()` and
/// writes the image as PNG with `write_to`, the `ImageError` turned into its
/// message. Trusted: it fails to encode exactly when `qr_refusal(data)`
/// names a failure, with that failure; otherwise the outcome is
/// `qr_png_data(data, size)`. Sizes are bounded as for `render_qr_svg`, and
/// the grey image's bytes must fit in a `Vec` (`ImageBuffer::new` panics
/// otherwise); the image is at most `size + 184` pixels wide and high.
#[verifier::external_body]
pub(crate) fn render_qr_png(data: &str, size: u32) -> (r: Result<Vec<u8>, QrServiceError>)
    requires
        qr_png_size_ok(size),
    ensures
        (r matches Err(QrServiceError::Encode(_))) == !qr_encodable(data@),
        r matches Err(QrServiceError::Encode(f)) ==> qr_refusal(data@) == Some(f),
        r matches Ok(v) ==> qr_png_data(data@, size) matches Ok(p) && p == v@,
        r matches Err(QrServiceError::Image(m)) ==> qr_png_data(data@, size) matches Err(t) && t == m@,
{
    let code = match qrcode::QrCode::new(data.as_bytes()) {
        Ok(c) => c,
        Err(e) => return Err(QrServiceError::Encode(match e {
            QrError::DataTooLong => QrFailure::DataTooLong,
            QrError::InvalidVersion => QrFailure::InvalidVersion,
            QrError::UnsupportedCharacterSet => QrFailure::UnsupportedCharacterSet,
            QrError::InvalidEciDesignator => QrFailure::InvalidEciDesignator,
            QrError::InvalidCharacter => QrFailure::InvalidCharacter,
        })),
    };
    let mut png: Vec<u8> = Vec::new();
    let written = code.render::<image::Luma<u8>>().min_dimensions(size, size).build()
        .write_to(&mut std::io::Cursor::new(&mut png), image::ImageFormat::Png);
    written.map_err(|e| QrServiceError::Image(e.to_string()))?;
    Ok(png)
}

/// The text that `str::to_lowercase` gives for `s`.
pub uninterp spec fn lowercase(s: Seq<char>) -> Seq<char>;

/// Lower-cases `s` with `str::to_lowercase`. Trusted: the result is
/// `lowercase(s)`.
#[verifier::external_body]
pub(crate) fn to_lowercase(s: &str) -> (r: String)
    ensures
        r@ == lowercase(s@),
{
    s.to_lowercase()
}

/// The hash that `std::collections::hash_map::DefaultHasher::new()` gives
/// for `s` (hashed with `Hash::hash`, then `finish`). The hasher starts
/// from fixed keys, so the value depends on `s` alone within one build.
pub uninterp spec fn default_hash(s: Seq<char>) -> u64;

/// Hashes `s` with a fresh `DefaultHasher`. Trusted: the result is
/// `default_hash(s)`.
#[verifier::external_body]
pub(crate) fn hash_text(s: &str) -> (r: u64)
    ensures
        r == default_hash(s@),
{
    let mut h = std::collections::hash_map::DefaultHasher::new();
    s.hash(&mut h);
    h.finish()
}

} // verus!
