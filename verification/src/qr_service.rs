//! QR codes of a text, as SVG, as PNG and as a PNG data URL.
use vstd::prelude::*;
use crate::base64::{base64, encode};
use crate::foreign::{qr_encodable, qr_png_data, qr_refusal, qr_svg_text, render_qr_png, render_qr_svg};

verus! {

/// Why a text could not be encoded as a QR code.
#[derive(Debug, Clone, Copy, PartialEq, Eq, Structural)]
pub enum QrFailure {
    DataTooLong,
    InvalidVersion,
    UnsupportedCharacterSet,
    InvalidEciDesignator,
    InvalidCharacter,
}

/// The message of an encoding failure.
pub open spec fn failure_text(f: QrFailure) -> Seq<char> {
    match f {
        QrFailure::DataTooLong => "data too long"@,
        QrFailure::InvalidVersion => "invalid version"@,
        QrFailure::UnsupportedCharacterSet => "unsupported character set"@,
        QrFailure::InvalidEciDesignator => "invalid ECI designator"@,
        QrFailure::InvalidCharacter => "invalid character"@,
    }
}

impl QrFailure {
    /// The message of this failure.
    pub fn message(&self) -> (r: String)
        ensures
            r@ == failure_text(*self),
    {
        match self {
            QrFailure::DataTooLong => String::from_str("data too long"),
            QrFailure::InvalidVersion => String::from_str("invalid version"),
            QrFailure::UnsupportedCharacterSet => String::from_str("unsupported character set"),
            QrFailure::InvalidEciDesignator => String::from_str("invalid ECI designator"),
            QrFailure::InvalidCharacter => String::from_str("invalid character"),
        }
    }
}

/// Why a QR code could not be produced.
#[derive(Debug, Clone, PartialEq, Eq)]
pub enum QrServiceError {
    /// The text could not be encoded.
    Encode(QrFailure),
    /// The image could not be written; the text is the image library's
    /// message.
    Image(String),
}

/// A `QrServiceError` with its message as a sequence of characters.
pub enum QrServiceErrorView {
    Encode(QrFailure),
    Image(Seq<char>),
}

impl View for QrServiceError {
    type V = QrServiceErrorView;

    open spec fn view(&self) -> QrServiceErrorView {
        match self {
            QrServiceError::Encode(f) => QrServiceErrorView::Encode(*f),
            QrServiceError::Image(m) => QrServiceErrorView::Image(m@),
        }
    }
}

impl QrServiceError {
    /// The message of this error.
    pub fn message(&self) -> (r: String)
        ensures
            *self matches QrServiceError::Encode(f) ==> r@ == failure_text(f),
            *self matches QrServiceError::Image(m) ==> r@ == m@,
    {
        match self {
            QrServiceError::Encode(f) => f.message(),
            QrServiceError::Image(m) => m.clone(),
        }
    }
}

/// Sizes the QR renderer can take: it rounds `size` up to a whole number
/// of pixels per module, adding up to 184 in `u32`.
pub open spec fn qr_size_ok(size: u32) -> bool {
    size + 184 <= u32::MAX
}

/// Sizes for which the grey image of a code, at most `size + 184` pixels
/// wide and high, also fits in memory addressed by `isize`.
pub open spec fn qr_png_size_ok(size: u32) -> bool {
    qr_size_ok(size) && (size + 184) * (size + 184) <= isize::MAX
}

/// The dark colour of rendered codes.
pub open spec fn dark_colour() -> Seq<char> {
    "#000000"@
}

/// The light colour of rendered codes.
pub open spec fn light_colour() -> Seq<char> {
    "#ffffff"@
}

/// The QR code of `data` as an SVG document at least `size` pixels wide
/// and high, black on white.
pub fn generate_qr_svg(data: &str, size: u32) -> (r: Result<String, QrServiceError>)
    requires
        qr_size_ok(size),
    ensures
        r is Ok == qr_encodable(data@),
        r matches Ok(s) ==> s@ == qr_svg_text(data@, size, dark_colour(), light_colour()),
        r matches Err(e) ==> e@ == QrServiceErrorView::Encode(qr_refusal(data@)->0),
{
    match render_qr_svg(data, size, "#000000", "#ffffff") {
        Ok(s) => Ok(s),
        Err(f) => Err(QrServiceError::Encode(f)),
    }
}

/// The error that producing the PNG code of `data` at `size` ends in: the
/// encoder's refusal, else the message of the image writer.
pub open spec fn png_failure(data: Seq<char>, size: u32) -> QrServiceErrorView {
    match qr_refusal(data) {
        Some(f) => QrServiceErrorView::Encode(f),
        None => QrServiceErrorView::Image(qr_png_data(data, size)->Err_0),
    }
}

/// The QR code of `data` as a PNG image at least `size` pixels wide and
/// high.
pub fn generate_qr_png(data: &str, size: u32) -> (r: Result<Vec<u8>, QrServiceError>)
    requires
        qr_png_size_ok(size),
    ensures
        r is Ok == (qr_encodable(data@) && qr_png_data(data@, size) is Ok),
        r matches Ok(v) ==> qr_png_data(data@, size) matches Ok(p) && p == v@,
        r matches Err(e) ==> e@ == png_failure(data@, size),
{
    render_qr_png(data, size)
}

/// The prefix of a PNG data URL.
pub open spec fn png_url_prefix() -> Seq<char> {
    "data:image/png;base64,"@
}

/// A data URL holding the PNG file `png`, base64-encoded.
pub fn png_data_url(png: &[u8]) -> (r: String)
    ensures
        r@ == png_url_prefix() + base64(png@),
{
    let b = encode(png);
    let mut r = String::from_str("data:image/png;base64,");
    r.append(b.as_str());
    r
}

/// The QR code of `data` as a PNG data URL, for direct use in HTML. It
/// fails exactly when `generate_qr_png` does, with the same error.
pub fn generate_qr_base64(data: &str, size: u32) -> (r: Result<String, QrServiceError>)
    requires
        qr_png_size_ok(size),
    ensures
        r is Ok == (qr_encodable(data@) && qr_png_data(data@, size) is Ok),
        r matches Ok(s) ==> s@ == png_url_prefix() + base64(qr_png_data(data@, size)->Ok_0),
        r matches Err(e) ==> e@ == png_failure(data@, size),
{
    let png = generate_qr_png(data, size)?;
    Ok(png_data_url(png.as_slice()))
}

} // verus!
