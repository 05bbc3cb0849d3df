use hoi4ms::text_file::{decode, decode_windows_1252, encode, BOM};

#[test]
fn decodes_windows_1252_high_bytes() {
    assert_eq!(decode_windows_1252(&[0x93, 0x41, 0x94]), "\u{201C}A\u{201D}");
}

#[test]
fn a_bom_survives_encode_and_decode() {
    let (bytes, legacy) = encode("l_english:\n key:0 \"value\"\n", false, true);
    assert!(!legacy);
    assert!(bytes.starts_with(&BOM));

    let (content, has_bom, is_legacy) = decode(&bytes);
    assert!(has_bom);
    assert!(!is_legacy);
    assert!(content.starts_with("l_english:"));
}

#[test]
fn invalid_utf8_is_read_as_windows_1252() {
    let (content, has_bom, is_legacy) = decode(&[0x63, 0x61, 0x66, 0xE9]);
    assert!(!has_bom);
    assert!(is_legacy);
    assert_eq!(content, "caf\u{e9}");
}

#[test]
fn encoding_without_a_bom_is_the_plain_bytes() {
    assert_eq!(encode("abc", false, false), (b"abc".to_vec(), false));
}

#[test]
fn a_windows_1252_file_is_written_back_as_windows_1252() {
    let (content, _, is_legacy) = decode(&[0x63, 0x61, 0x66, 0xE9, 0x20, 0x93, 0x41, 0x94]);
    assert!(is_legacy);
    let (bytes, legacy) = encode(&content, is_legacy, false);
    assert!(legacy);
    assert_eq!(bytes, vec![0x63, 0x61, 0x66, 0xE9, 0x20, 0x93, 0x41, 0x94]);
}

#[test]
fn windows_1252_keeps_its_byte_order_mark() {
    let (bytes, legacy) = encode("caf\u{e9}", true, true);
    assert!(legacy);
    assert_eq!(bytes, vec![0xEF, 0xBB, 0xBF, 0x63, 0x61, 0x66, 0xE9]);
}

#[test]
fn text_that_no_longer_fits_windows_1252_falls_back_to_utf8() {
    let (bytes, legacy) = encode("caf\u{e9} \u{4e2d}", true, false);
    assert!(!legacy);
    assert_eq!(bytes, "caf\u{e9} \u{4e2d}".as_bytes().to_vec());
}

#[test]
fn a_utf8_file_stays_utf8() {
    let (bytes, legacy) = encode("caf\u{e9}", false, false);
    assert!(!legacy);
    assert_eq!(bytes, vec![0x63, 0x61, 0x66, 0xC3, 0xA9]);
}

#[test]
fn round_trips_a_bom() {
    let (bytes, _) = encode("l_english:\n key:0 \"value\"\n", false, true);
    let (content, has_bom, is_legacy_encoding) = decode(&bytes);

    assert!(has_bom);
    assert!(!is_legacy_encoding);
    assert!(content.starts_with("l_english:"));
}
