use base64::engine::general_purpose::STANDARD;
use base64::Engine;
use hoi4ms::assets::{
    data_url, first_frame_width, image_format, needs_decode, web_native_mime, PictureFormat,
};

fn png(width: u32, height: u32) -> Vec<u8> {
    let image = image::RgbaImage::from_pixel(width, height, image::Rgba([12, 34, 56, 255]));
    let mut bytes = Vec::new();
    image
        .write_to(&mut std::io::Cursor::new(&mut bytes), image::ImageFormat::Png)
        .expect("encodes");
    bytes
}

fn decoded(url: &str) -> image::DynamicImage {
    let bytes = STANDARD
        .decode(url.trim_start_matches("data:image/png;base64,"))
        .expect("base64");
    image::load_from_memory(&bytes).expect("png")
}

#[test]
fn recognises_convertible_formats() {
    assert!(image_format("tga").is_some());
    assert!(image_format("dds").is_some());
    assert!(image_format("psd").is_none());
}

#[test]
fn passes_through_web_native_formats() {
    assert_eq!(web_native_mime("png"), Some("image/png"));
    assert_eq!(web_native_mime("tga"), None);
}

#[test]
fn encodes_a_generated_image_as_a_data_url() {
    let bytes = png(4, 4);

    let url = data_url("(test)/swatch.png", "png", &bytes, None, 1).expect("encodes");
    assert!(url.starts_with("data:image/png;base64,"));
    // Passed through untouched.
    assert_eq!(url, format!("data:image/png;base64,{}", STANDARD.encode(&bytes)));
}

#[test]
fn keeps_only_the_first_frame_of_a_sprite_strip() {
    // Two frames of eight pixels, as an animated sprite stores them.
    let bytes = png(16, 8);

    let url = data_url("(test)/strip.png", "png", &bytes, None, 2).expect("encodes");
    let picture = decoded(&url);

    assert_eq!((picture.width(), picture.height()), (8, 8));
}

#[test]
fn reports_unsupported_files_clearly() {
    let error = data_url("(test)/notes.psd", "psd", b"not an image", None, 1).expect_err("fails");
    assert!(error.text().contains("psd"));
    assert_eq!(error.text(), "(test)/notes.psd is not a supported image: `psd` files cannot be previewed");
}

#[test]
fn a_large_picture_is_shrunk_to_the_limit() {
    let bytes = png(40, 20);

    // Small files pass through unless they are strips or unreadable formats.
    let url = data_url("(test)/big.png", "PNG", &bytes, Some(10), 2).expect("encodes");
    let picture = decoded(&url);
    assert!(picture.width() <= 10 && picture.height() <= 10);
}

#[test]
fn a_picture_the_decoder_rejects_is_an_image_error() {
    let error = data_url("(test)/broken.tga", "tga", b"xx", None, 1).expect_err("fails");
    assert!(error.text().starts_with("(test)/broken.tga is not a supported image: "));
}

#[test]
fn decoding_is_needed_for_strips_foreign_formats_and_large_files() {
    assert!(!needs_decode(1, true, None, 10_000_000));
    assert!(needs_decode(2, true, None, 10));
    assert!(needs_decode(1, false, None, 10));
    assert!(needs_decode(1, true, Some(64), 524_289));
    assert!(!needs_decode(1, true, Some(64), 524_288));
    assert_eq!(image_format("jpeg"), Some(PictureFormat::Jpeg));
    assert_eq!(web_native_mime("jpg"), Some("image/jpeg"));
}

#[test]
fn a_strip_keeps_its_first_frame_only_when_it_has_room_for_it() {
    assert_eq!(first_frame_width(16, 2), Some(8));
    assert_eq!(first_frame_width(16, 1), None);
    assert_eq!(first_frame_width(1, 2), None);
}

#[test]
fn a_frame_larger_than_the_limit_is_shrunk_after_the_crop() {
    // Two frames of 32 by 8 pixels; the first one is shrunk to fit 16.
    let bytes = png(64, 8);
    let url = data_url("(test)/strip.png", "png", &bytes, Some(16), 2).expect("encodes");
    let picture = decoded(&url);
    assert_eq!(image::GenericImageView::dimensions(&picture), (16, 4));
}

#[test]
fn a_file_that_does_not_decode_names_the_file() {
    let error = data_url("(test)/broken.tga", "tga", b"not a picture", None, 1).expect_err("refused");
    match error {
        hoi4ms::error::EditError::Image { path, .. } => assert_eq!(path, "(test)/broken.tga"),
        other => panic!("unexpected error {other:?}"),
    }
}
