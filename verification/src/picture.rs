//! Pictures as the window shows them: PNG bytes inside a base64 data URL.
//!
//! Encoding and decoding are the `image` and `base64` crates' work; what
//! this library decides is which bytes go in and how the answer is framed.
use base64::Engine;
use vstd::prelude::*;

verus! {

/// A six-bit value as a digit of the standard base64 alphabet
/// (RFC 4648): `A`-`Z`, `a`-`z`, `0`-`9`, `+`, `/`.
pub open spec fn base64_digit(v: u8) -> char {
    if v < 26 {
        (v + 65) as char
    } else if v < 52 {
        (v + 71) as char
    } else if v < 62 {
        (v - 4) as char
    } else if v == 62 {
        '+'
    } else {
        '/'
    }
}

/// Standard base64 with padding: every three bytes become four digits, and
/// a last group of one or two bytes is padded with `=`.
pub open spec fn base64_text(b: Seq<u8>) -> Seq<char>
    decreases b.len(),
{
    if b.len() == 0 {
        Seq::empty()
    } else if b.len() == 1 {
        seq![base64_digit(b[0] >> 2), base64_digit((b[0] & 3) << 4), '=', '=']
    } else if b.len() == 2 {
        seq![
            base64_digit(b[0] >> 2),
            base64_digit(((b[0] & 3) << 4) | (b[1] >> 4)),
            base64_digit((b[1] & 15) << 2),
            '=',
        ]
    } else {
        seq![
            base64_digit(b[0] >> 2),
            base64_digit(((b[0] & 3) << 4) | (b[1] >> 4)),
            base64_digit(((b[1] & 15) << 2) | (b[2] >> 6)),
            base64_digit(b[2] & 63),
        ] + base64_text(b.skip(3))
    }
}

/// Encodes with `base64::engine::general_purpose::STANDARD`, the RFC 4648
/// alphabet with padding, as `base64_text` states it.
#[verifier::external_body]
pub(crate) fn base64_of(bytes: &[u8]) -> (r: String)
    ensures
        r@ == base64_text(bytes@),
{
    base64::engine::general_purpose::STANDARD.encode(bytes)
}

/// What `image::write_buffer_with_format` produces for an 8-bit RGB buffer
/// written as PNG: the file's bytes, or the encoder's message.
pub uninterp spec fn png_encoding(width: u32, height: u32, pixels: Seq<u8>) -> Result<
    Seq<u8>,
    Seq<char>,
>;

/// Writes raw RGB pixels, row major, as a PNG file in memory with
/// `image::write_buffer_with_format`. The encoder asserts that the buffer
/// holds exactly three bytes per pixel, so that is required here; the
/// outcome, file or message, is named as a function of the arguments.
#[verifier::external_body]
pub(crate) fn encode_png(width: u32, height: u32, pixels: &[u8]) -> (r: Result<Vec<u8>, String>)
    requires
        pixels@.len() == width as int * height as int * 3,
    ensures
        match r {
            Ok(bytes) => png_encoding(width, height, pixels@) == Ok::<Seq<u8>, Seq<char>>(bytes@),
            Err(message) => png_encoding(width, height, pixels@) == Err::<Seq<u8>, Seq<char>>(
                message@,
            ),
        },
{
    let mut encoded: Vec<u8> = Vec::new();
    match image::write_buffer_with_format(
        &mut std::io::Cursor::new(&mut encoded),
        pixels,
        width,
        height,
        image::ExtendedColorType::Rgb8,
        image::ImageFormat::Png,
    ) {
        Ok(()) => Ok(encoded),
        Err(error) => Err(error.to_string()),
    }
}

/// `data:<mime>;base64,<text>`.
pub open spec fn data_url_spec(mime: Seq<char>, bytes: Seq<u8>) -> Seq<char> {
    "data:"@ + mime + ";base64,"@ + base64_text(bytes)
}

/// Frames bytes as a data URL of the given type.
pub fn data_url_of(mime: &str, bytes: &[u8]) -> (r: String)
    ensures
        r@ == data_url_spec(mime@, bytes@),
{
    let mut r = "data:".to_owned();
    r.push_str(mime);
    r.push_str(";base64,");
    let text = base64_of(bytes);
    r.push_str(text.as_str());
    proof {
        reveal_strlit("data:");
        reveal_strlit(";base64,");
    }
    r
}

} // verus!
