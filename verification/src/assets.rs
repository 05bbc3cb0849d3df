//! Turning mod and game art into something a WebView can show.
//!
//! Hearts of Iron IV ships flags as `.tga` and most interface art as `.dds`,
//! neither of which a browser can render, so those are decoded and re-encoded
//! as PNG before they reach the frontend.
use crate::error::EditError;
use crate::picture::{data_url_of, data_url_spec};
use crate::text::{lowercase, str_eq, to_lowercase};
use vstd::prelude::*;

verus! {

/// Files larger than this are always decoded and downscaled rather than
/// embedded as-is, when a size limit is asked for, to keep the data URL from
/// bloating the WebView.
pub const PASSTHROUGH_LIMIT_BYTES: u64 = 524288;

/// The picture formats the tool can decode.
#[derive(Debug, Clone, Copy, PartialEq, Eq, Structural)]
pub enum PictureFormat {
    Png,
    Jpeg,
    Gif,
    Bmp,
    Tga,
    Dds,
}

/// The MIME type of a format a WebView displays without any conversion.
pub open spec fn native_mime_spec(extension: Seq<char>) -> Option<Seq<char>> {
    if extension == "png"@ {
        Some("image/png"@)
    } else if extension == "jpg"@ || extension == "jpeg"@ {
        Some("image/jpeg"@)
    } else if extension == "gif"@ {
        Some("image/gif"@)
    } else if extension == "bmp"@ {
        Some("image/bmp"@)
    } else {
        None
    }
}

/// The format a file extension names, when the tool can decode it.
pub open spec fn format_spec(extension: Seq<char>) -> Option<PictureFormat> {
    if extension == "png"@ {
        Some(PictureFormat::Png)
    } else if extension == "jpg"@ || extension == "jpeg"@ {
        Some(PictureFormat::Jpeg)
    } else if extension == "gif"@ {
        Some(PictureFormat::Gif)
    } else if extension == "bmp"@ {
        Some(PictureFormat::Bmp)
    } else if extension == "tga"@ {
        Some(PictureFormat::Tga)
    } else if extension == "dds"@ {
        Some(PictureFormat::Dds)
    } else {
        None
    }
}

/// Formats a WebView can display without any conversion.
pub fn web_native_mime(extension: &str) -> (r: Option<&'static str>)
    ensures
        match native_mime_spec(extension@) {
            Some(m) => r matches Some(x) && x@ == m,
            None => r is None,
        },
{
    if str_eq(extension, "png") {
        Some("image/png")
    } else if str_eq(extension, "jpg") || str_eq(extension, "jpeg") {
        Some("image/jpeg")
    } else if str_eq(extension, "gif") {
        Some("image/gif")
    } else if str_eq(extension, "bmp") {
        Some("image/bmp")
    } else {
        None
    }
}

/// The format to decode a file with, by its extension.
pub fn image_format(extension: &str) -> (r: Option<PictureFormat>)
    ensures
        r == format_spec(extension@),
{
    if str_eq(extension, "png") {
        Some(PictureFormat::Png)
    } else if str_eq(extension, "jpg") || str_eq(extension, "jpeg") {
        Some(PictureFormat::Jpeg)
    } else if str_eq(extension, "gif") {
        Some(PictureFormat::Gif)
    } else if str_eq(extension, "bmp") {
        Some(PictureFormat::Bmp)
    } else if str_eq(extension, "tga") {
        Some(PictureFormat::Tga)
    } else if str_eq(extension, "dds") {
        Some(PictureFormat::Dds)
    } else {
        None
    }
}

/// A file is shown as it is only when the WebView reads its format, it is
/// not a strip of frames, and it is small enough or no size was asked for.
pub open spec fn needs_decode_spec(
    frames: u32,
    native: bool,
    max_dimension: Option<u32>,
    byte_len: nat,
) -> bool {
    frames > 1 || !native || (max_dimension is Some && byte_len > PASSTHROUGH_LIMIT_BYTES)
}

pub fn needs_decode(frames: u32, native: bool, max_dimension: Option<u32>, byte_len: usize) -> (r:
    bool)
    ensures
        r == needs_decode_spec(frames, native, max_dimension, byte_len as nat),
{
    frames > 1 || !native || (max_dimension.is_some() && byte_len as u64 > PASSTHROUGH_LIMIT_BYTES)
}

/// The width of the first frame of a strip `frames` wide, when it is one:
/// a frame count wider than the texture would crop it to nothing.
pub fn first_frame_width(width: u32, frames: u32) -> (r: Option<u32>)
    ensures
        r == (if frames > 1 && width >= frames {
            Some((width / frames) as u32)
        } else {
            None
        }),
{
    if frames > 1 && width >= frames {
        Some(width / frames)
    } else {
        None
    }
}

/// A picture larger than `limit` either way is shrunk to fit it.
pub open spec fn too_large_spec(width: u32, height: u32, limit: Option<u32>) -> bool {
    match limit {
        Some(l) => width > l || height > l,
        None => false,
    }
}

/// What the `image` crate decodes a picture file to, in `format`: its width
/// and height, or the decoder's message.
pub uninterp spec fn picture_dimensions(bytes: Seq<u8>, format: PictureFormat) -> Result<(u32, u32), Seq<char>>;

/// Decodes the file with `image::load_from_memory_with_format` and takes
/// `GenericImageView::dimensions`.
#[verifier::external_body]
fn decoded_size(bytes: &[u8], format: PictureFormat) -> (r: Result<(u32, u32), String>)
    ensures
        match r {
            Ok(size) => picture_dimensions(bytes@, format) == Ok::<(u32, u32), Seq<char>>(size),
            Err(message) => picture_dimensions(bytes@, format) == Err::<(u32, u32), Seq<char>>(message@),
        },
{
    let format = match format {
        PictureFormat::Png => image::ImageFormat::Png, PictureFormat::Jpeg => image::ImageFormat::Jpeg,
        PictureFormat::Gif => image::ImageFormat::Gif, PictureFormat::Bmp => image::ImageFormat::Bmp,
        PictureFormat::Tga => image::ImageFormat::Tga, PictureFormat::Dds => image::ImageFormat::Dds,
    };
    let picture = match image::load_from_memory_with_format(bytes, format) {
        Ok(picture) => picture,
        Err(error) => return Err(error.to_string()),
    };
    Ok(image::GenericImageView::dimensions(&picture))
}

/// What the `image` crate makes of a picture file decoded in `format`,
/// cropped with `crop_imm` to `width` by `height` from the top left and
/// written with `write_to` as PNG: the file's bytes, or a message.
pub uninterp spec fn cropped_png(bytes: Seq<u8>, format: PictureFormat, width: u32, height: u32) -> Result<
    Seq<u8>,
    Seq<char>,
>;

/// Decodes, crops from the top left and writes PNG into memory.
#[verifier::external_body]
fn render_cropped(bytes: &[u8], format: PictureFormat, width: u32, height: u32) -> (r: Result<Vec<u8>, String>)
    ensures
        match r {
            Ok(png) => cropped_png(bytes@, format, width, height) == Ok::<Seq<u8>, Seq<char>>(png@),
            Err(message) => cropped_png(bytes@, format, width, height) == Err::<Seq<u8>, Seq<char>>(message@),
        },
{
    let format = match format {
        PictureFormat::Png => image::ImageFormat::Png, PictureFormat::Jpeg => image::ImageFormat::Jpeg,
        PictureFormat::Gif => image::ImageFormat::Gif, PictureFormat::Bmp => image::ImageFormat::Bmp,
        PictureFormat::Tga => image::ImageFormat::Tga, PictureFormat::Dds => image::ImageFormat::Dds,
    };
    let picture = match image::load_from_memory_with_format(bytes, format) {
        Ok(picture) => picture,
        Err(error) => return Err(error.to_string()),
    };
    let picture = picture.crop_imm(0, 0, width, height);
    let mut encoded: Vec<u8> = Vec::new();
    match picture.write_to(&mut std::io::Cursor::new(&mut encoded), image::ImageFormat::Png) {
        Ok(()) => Ok(encoded),
        Err(error) => Err(error.to_string()),
    }
}

/// The same, with the cropped picture scaled down with `thumbnail` to fit a
/// square of side `limit`, keeping its proportions.
pub uninterp spec fn shrunk_png(bytes: Seq<u8>, format: PictureFormat, width: u32, height: u32, limit: u32) -> Result<
    Seq<u8>,
    Seq<char>,
>;

/// Decodes, crops from the top left, shrinks and writes PNG into memory.
#[verifier::external_body]
fn render_shrunk(bytes: &[u8], format: PictureFormat, width: u32, height: u32, limit: u32) -> (r: Result<Vec<u8>, String>)
    ensures
        match r {
            Ok(png) => shrunk_png(bytes@, format, width, height, limit) == Ok::<Seq<u8>, Seq<char>>(png@),
            Err(message) => shrunk_png(bytes@, format, width, height, limit) == Err::<Seq<u8>, Seq<char>>(message@),
        },
{
    let format = match format {
        PictureFormat::Png => image::ImageFormat::Png, PictureFormat::Jpeg => image::ImageFormat::Jpeg,
        PictureFormat::Gif => image::ImageFormat::Gif, PictureFormat::Bmp => image::ImageFormat::Bmp,
        PictureFormat::Tga => image::ImageFormat::Tga, PictureFormat::Dds => image::ImageFormat::Dds,
    };
    let picture = match image::load_from_memory_with_format(bytes, format) {
        Ok(picture) => picture,
        Err(error) => return Err(error.to_string()),
    };
    let picture = picture.crop_imm(0, 0, width, height).thumbnail(limit, limit);
    let mut encoded: Vec<u8> = Vec::new();
    match picture.write_to(&mut std::io::Cursor::new(&mut encoded), image::ImageFormat::Png) {
        Ok(()) => Ok(encoded),
        Err(error) => Err(error.to_string()),
    }
}

/// The width kept of a picture `width` wide: its first frame when it is a
/// strip of `frames`, all of it otherwise.
pub open spec fn kept_width(width: u32, frames: u32) -> u32 {
    if frames > 1 && width >= frames {
        (width / frames) as u32
    } else {
        width
    }
}

/// The PNG a decoded picture is sent as: its first frame kept (the crate
/// clamps a crop to the picture, so a crop as large as the picture keeps it
/// whole), shrunk when that is larger than the limit either way.
pub open spec fn shown_png(bytes: Seq<u8>, format: PictureFormat, width: u32, height: u32, frames: u32, limit: Option<u32>) -> Result<
    Seq<u8>,
    Seq<char>,
> {
    let kept = kept_width(width, frames);
    if too_large_spec(kept, height, limit) {
        shrunk_png(bytes, format, kept, height, limit->0)
    } else {
        cropped_png(bytes, format, kept, height)
    }
}

/// The message for a file whose extension names no format the tool reads.
pub open spec fn unsupported_message(extension: Seq<char>) -> Seq<char> {
    "`"@ + extension + "` files cannot be previewed"@
}

/// The bytes of a picture file as a data URL the WebView can show.
///
/// A file the WebView reads as it is, small enough or with no size asked
/// for, and not a strip of frames, is passed through untouched. Anything
/// else is decoded: a strip of `frames` side by side keeps only its first
/// frame, a picture larger than `max_dimension` is shrunk to fit, and the
/// result is sent as PNG. `path` only names the file in messages;
/// `extension` is matched however it is cased.
pub fn data_url(path: &str, extension: &str, bytes: &[u8], max_dimension: Option<u32>, frames: u32)
    -> (r: Result<String, EditError>)
    ensures
        ({
            let ext = lowercase(extension@);
            if !needs_decode_spec(
                frames,
                native_mime_spec(ext) is Some,
                max_dimension,
                bytes@.len(),
            ) {
                r matches Ok(url) && url@ == data_url_spec(native_mime_spec(ext)->0, bytes@)
            } else if format_spec(ext) is None {
                r matches Err(EditError::Image { path: p, message: m }) && p@ == path@ && m@
                    == unsupported_message(ext)
            } else {
                match picture_dimensions(bytes@, format_spec(ext)->0) {
                    Err(m) => r matches Err(EditError::Image { path: p, message: t }) && p@ == path@ && t@ == m,
                    Ok((width, height)) => match shown_png(
                        bytes@,
                        format_spec(ext)->0,
                        width,
                        height,
                        frames,
                        max_dimension,
                    ) {
                        Ok(png) => r matches Ok(url) && url@ == data_url_spec("image/png"@, png),
                        Err(m) => r matches Err(EditError::Image { path: p, message: t }) && p@ == path@ && t@ == m,
                    },
                }
            }
        }),
{
    let extension = to_lowercase(extension);
    let native = web_native_mime(extension.as_str());
    if !needs_decode(frames, native.is_some(), max_dimension, bytes.len()) {
        let mime = match native {
            Some(mime) => mime,
            None => "",
        };
        return Ok(data_url_of(mime, bytes));
    }
    let format = match image_format(extension.as_str()) {
        Some(format) => format,
        None => {
            let mut message = "`".to_owned();
            message.push_str(extension.as_str());
            message.push_str("` files cannot be previewed");
            proof {
                reveal_strlit("`");
                reveal_strlit("` files cannot be previewed");
            }
            return Err(EditError::Image { path: path.to_owned(), message });
        },
    };
    let (width, height) = match decoded_size(bytes, format) {
        Ok(size) => size,
        Err(message) => {
            return Err(EditError::Image { path: path.to_owned(), message });
        },
    };
    let kept = match first_frame_width(width, frames) {
        Some(frame) => frame,
        None => width,
    };
    let png = match max_dimension {
        Some(limit) => if kept > limit || height > limit {
            render_shrunk(bytes, format, kept, height, limit)
        } else {
            render_cropped(bytes, format, kept, height)
        },
        None => render_cropped(bytes, format, kept, height),
    };
    match png {
        Ok(png) => {
            let url = data_url_of("image/png", png.as_slice());
            Ok(url)
        },
        Err(message) => Err(EditError::Image { path: path.to_owned(), message }),
    }
}

/// Law: PNG, JPEG, GIF and BMP pictures are shown as they are, under their
/// MIME types; TGA and DDS pictures, which a WebView cannot show, are
/// converted; every one of these formats is decoded by its extension.
pub proof fn law_picture_formats_by_extension()
    ensures
        native_mime_spec("png"@) == Some("image/png"@),
        native_mime_spec("jpg"@) == Some("image/jpeg"@),
        native_mime_spec("jpeg"@) == Some("image/jpeg"@),
        native_mime_spec("gif"@) == Some("image/gif"@),
        native_mime_spec("bmp"@) == Some("image/bmp"@),
        native_mime_spec("tga"@) is None,
        native_mime_spec("dds"@) is None,
        format_spec("png"@) == Some(PictureFormat::Png),
        format_spec("jpg"@) == Some(PictureFormat::Jpeg),
        format_spec("jpeg"@) == Some(PictureFormat::Jpeg),
        format_spec("gif"@) == Some(PictureFormat::Gif),
        format_spec("bmp"@) == Some(PictureFormat::Bmp),
        format_spec("tga"@) == Some(PictureFormat::Tga),
        format_spec("dds"@) == Some(PictureFormat::Dds),
{
    reveal_strlit("png");
    reveal_strlit("jpg");
    reveal_strlit("jpeg");
    reveal_strlit("gif");
    reveal_strlit("bmp");
    reveal_strlit("tga");
    reveal_strlit("dds");
    assert("jpg"@[0] != "png"@[0]);
    assert("jpeg"@[0] != "png"@[0]);
    assert("gif"@[0] != "png"@[0]);
    assert("gif"@[0] != "jpg"@[0]);
    assert("gif"@[0] != "jpeg"@[0]);
    assert("bmp"@[0] != "png"@[0]);
    assert("bmp"@[0] != "jpg"@[0]);
    assert("bmp"@[0] != "jpeg"@[0]);
    assert("bmp"@[0] != "gif"@[0]);
    assert("tga"@[0] != "png"@[0]);
    assert("tga"@[0] != "jpg"@[0]);
    assert("tga"@[0] != "jpeg"@[0]);
    assert("tga"@[0] != "gif"@[0]);
    assert("tga"@[0] != "bmp"@[0]);
    assert("dds"@[0] != "png"@[0]);
    assert("dds"@[0] != "jpg"@[0]);
    assert("dds"@[0] != "jpeg"@[0]);
    assert("dds"@[0] != "gif"@[0]);
    assert("dds"@[0] != "bmp"@[0]);
    assert("dds"@[0] != "tga"@[0]);
}

} // verus!
