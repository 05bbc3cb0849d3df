//! The bytes of the text files a mod is made of.
//!
//! Two details matter for Hearts of Iron IV. Localisation `.yml` files are only
//! loaded by the game when they carry a UTF-8 BOM, and older script files are
//! sometimes Windows-1252 rather than UTF-8. Both are preserved on a round trip.
use vstd::prelude::*;
use crate::text::chars_of;
use vstd::utf8::{encode_utf8, valid_utf8};

verus! {

/// The UTF-8 byte order mark.
pub const BOM: [u8; 3] = [0xEF, 0xBB, 0xBF];

#[derive(Debug, Clone)]
pub struct TextFile {
    pub path: String,
    pub content: String,
    /// The file started with a UTF-8 byte order mark.
    pub has_bom: bool,
    /// The bytes were not valid UTF-8 and were decoded as Windows-1252.
    pub is_legacy_encoding: bool,
    pub size_bytes: u64,
}

/// Windows-1252 maps 1:1 onto Unicode except for the 0x80..=0x9F range.
pub open spec fn windows_1252(b: u8) -> char {
    if b == 0x80 {
        '\u{20AC}'
    } else if b == 0x82 {
        '\u{201A}'
    } else if b == 0x83 {
        '\u{0192}'
    } else if b == 0x84 {
        '\u{201E}'
    } else if b == 0x85 {
        '\u{2026}'
    } else if b == 0x86 {
        '\u{2020}'
    } else if b == 0x87 {
        '\u{2021}'
    } else if b == 0x88 {
        '\u{02C6}'
    } else if b == 0x89 {
        '\u{2030}'
    } else if b == 0x8A {
        '\u{0160}'
    } else if b == 0x8B {
        '\u{2039}'
    } else if b == 0x8C {
        '\u{0152}'
    } else if b == 0x8E {
        '\u{017D}'
    } else if b == 0x91 {
        '\u{2018}'
    } else if b == 0x92 {
        '\u{2019}'
    } else if b == 0x93 {
        '\u{201C}'
    } else if b == 0x94 {
        '\u{201D}'
    } else if b == 0x95 {
        '\u{2022}'
    } else if b == 0x96 {
        '\u{2013}'
    } else if b == 0x97 {
        '\u{2014}'
    } else if b == 0x98 {
        '\u{02DC}'
    } else if b == 0x99 {
        '\u{2122}'
    } else if b == 0x9A {
        '\u{0161}'
    } else if b == 0x9B {
        '\u{203A}'
    } else if b == 0x9C {
        '\u{0153}'
    } else if b == 0x9E {
        '\u{017E}'
    } else if b == 0x9F {
        '\u{0178}'
    } else if 0x80 <= b && b <= 0x9F {
        '\u{FFFD}'
    } else {
        b as char
    }
}

fn windows_1252_char(b: u8) -> (c: char)
    ensures
        c == windows_1252(b),
{
    if b == 0x80 {
        '\u{20AC}'
    } else if b == 0x82 {
        '\u{201A}'
    } else if b == 0x83 {
        '\u{0192}'
    } else if b == 0x84 {
        '\u{201E}'
    } else if b == 0x85 {
        '\u{2026}'
    } else if b == 0x86 {
        '\u{2020}'
    } else if b == 0x87 {
        '\u{2021}'
    } else if b == 0x88 {
        '\u{02C6}'
    } else if b == 0x89 {
        '\u{2030}'
    } else if b == 0x8A {
        '\u{0160}'
    } else if b == 0x8B {
        '\u{2039}'
    } else if b == 0x8C {
        '\u{0152}'
    } else if b == 0x8E {
        '\u{017D}'
    } else if b == 0x91 {
        '\u{2018}'
    } else if b == 0x92 {
        '\u{2019}'
    } else if b == 0x93 {
        '\u{201C}'
    } else if b == 0x94 {
        '\u{201D}'
    } else if b == 0x95 {
        '\u{2022}'
    } else if b == 0x96 {
        '\u{2013}'
    } else if b == 0x97 {
        '\u{2014}'
    } else if b == 0x98 {
        '\u{02DC}'
    } else if b == 0x99 {
        '\u{2122}'
    } else if b == 0x9A {
        '\u{0161}'
    } else if b == 0x9B {
        '\u{203A}'
    } else if b == 0x9C {
        '\u{0153}'
    } else if b == 0x9E {
        '\u{017E}'
    } else if b == 0x9F {
        '\u{0178}'
    } else if 0x80 <= b && b <= 0x9F {
        '\u{FFFD}'
    } else {
        b as char
    }
}

/// Bytes read as Windows-1252, one character per byte.
pub fn decode_windows_1252(bytes: &[u8]) -> (text: String)
    ensures
        text@ == Seq::new(bytes@.len(), |i: int| windows_1252(bytes@[i])),
{
    let mut text = String::new();
    let mut i: usize = 0;
    while i < bytes.len()
        invariant
            i <= bytes@.len(),
            text@ == Seq::new(i as nat, |k: int| windows_1252(bytes@[k])),
        decreases bytes@.len() - i,
    {
        text.push(windows_1252_char(bytes[i]));
        i = i + 1;
        assert(text@ =~= Seq::new(i as nat, |k: int| windows_1252(bytes@[k])));
    }
    text
}

/// The bytes as UTF-8 text, with `std::str::from_utf8`: text exactly when
/// they are valid UTF-8, and then the text they encode.
#[verifier::external_body]
fn utf8_text(bytes: &[u8]) -> (text: Option<String>)
    ensures
        text is Some <==> valid_utf8(bytes@),
        text matches Some(s) ==> encode_utf8(s@) == bytes@,
{
    match std::str::from_utf8(bytes) {
        Ok(text) => Some(text.to_string()),
        Err(_) => None,
    }
}

/// The file starts with a byte order mark.
pub open spec fn starts_with_bom(bytes: Seq<u8>) -> bool {
    bytes.len() >= 3 && bytes[0] == 0xEF && bytes[1] == 0xBB && bytes[2] == 0xBF
}

/// A file's text, whether it had a byte order mark (which is not part of
/// the text) and whether it had to be read as Windows-1252 because it was
/// not UTF-8.
pub fn decode(bytes: &[u8]) -> (r: (String, bool, bool))
    ensures
        r.1 == starts_with_bom(bytes@),
        ({
            let body = if r.1 {
                bytes@.skip(3)
            } else {
                bytes@
            };
            &&& r.2 == !valid_utf8(body)
            &&& !r.2 ==> encode_utf8(r.0@) == body
            &&& r.2 ==> r.0@ == Seq::new(body.len(), |i: int| windows_1252(body[i]))
        }),
{
    let has_bom = bytes.len() >= 3 && bytes[0] == 0xEF && bytes[1] == 0xBB && bytes[2] == 0xBF;
    let mut body: Vec<u8> = Vec::new();
    let mut i: usize = if has_bom {
        3
    } else {
        0
    };
    let start = i;
    while i < bytes.len()
        invariant
            start <= i <= bytes@.len(),
            body@ == bytes@.subrange(start as int, i as int),
        decreases bytes@.len() - i,
    {
        body.push(bytes[i]);
        i = i + 1;
        assert(body@ =~= bytes@.subrange(start as int, i as int));
    }
    assert(body@ =~= if has_bom {
        bytes@.skip(3)
    } else {
        bytes@
    });
    match utf8_text(body.as_slice()) {
        Some(text) => (text, has_bom, false),
        None => (decode_windows_1252(body.as_slice()), has_bom, true),
    }
}

/// The Windows-1252 byte for a character, where it has one: ASCII and
/// U+00A0..=U+00FF stand for themselves, and the characters of the
/// 0x80..=0x9F range have the byte that reads as them.
pub open spec fn windows_1252_byte(c: char) -> Option<u8> {
    if (c as u32) < 0x80 || (0xA0 <= (c as u32) && (c as u32) <= 0xFF) {
        Some((c as u32) as u8)
    } else if c == '\u{20AC}' {
        Some(0x80u8)
    } else if c == '\u{201A}' {
        Some(0x82u8)
    } else if c == '\u{0192}' {
        Some(0x83u8)
    } else if c == '\u{201E}' {
        Some(0x84u8)
    } else if c == '\u{2026}' {
        Some(0x85u8)
    } else if c == '\u{2020}' {
        Some(0x86u8)
    } else if c == '\u{2021}' {
        Some(0x87u8)
    } else if c == '\u{02C6}' {
        Some(0x88u8)
    } else if c == '\u{2030}' {
        Some(0x89u8)
    } else if c == '\u{0160}' {
        Some(0x8Au8)
    } else if c == '\u{2039}' {
        Some(0x8Bu8)
    } else if c == '\u{0152}' {
        Some(0x8Cu8)
    } else if c == '\u{017D}' {
        Some(0x8Eu8)
    } else if c == '\u{2018}' {
        Some(0x91u8)
    } else if c == '\u{2019}' {
        Some(0x92u8)
    } else if c == '\u{201C}' {
        Some(0x93u8)
    } else if c == '\u{201D}' {
        Some(0x94u8)
    } else if c == '\u{2022}' {
        Some(0x95u8)
    } else if c == '\u{2013}' {
        Some(0x96u8)
    } else if c == '\u{2014}' {
        Some(0x97u8)
    } else if c == '\u{02DC}' {
        Some(0x98u8)
    } else if c == '\u{2122}' {
        Some(0x99u8)
    } else if c == '\u{0161}' {
        Some(0x9Au8)
    } else if c == '\u{203A}' {
        Some(0x9Bu8)
    } else if c == '\u{0153}' {
        Some(0x9Cu8)
    } else if c == '\u{017E}' {
        Some(0x9Eu8)
    } else if c == '\u{0178}' {
        Some(0x9Fu8)
    } else {
        None
    }
}

/// Every character of the text has a Windows-1252 byte.
pub open spec fn fits_windows_1252(s: Seq<char>) -> bool {
    forall|i: int| 0 <= i < s.len() ==> #[trigger] windows_1252_byte(s[i]) is Some
}

/// The text as Windows-1252 bytes, one per character.
pub open spec fn encode_windows_1252_spec(s: Seq<char>) -> Seq<u8> {
    Seq::new(s.len(), |i: int| windows_1252_byte(s[i])->0)
}

/// The byte order mark when asked for, nothing otherwise.
pub open spec fn bom_prefix(with_bom: bool) -> Seq<u8> {
    if with_bom {
        seq![0xEFu8, 0xBBu8, 0xBFu8]
    } else {
        Seq::empty()
    }
}

fn windows_1252_byte_of(c: char) -> (r: Option<u8>)
    ensures
        r == windows_1252_byte(c),
{
    let code = c as u32;
    if code < 0x80 || (0xA0 <= code && code <= 0xFF) {
        Some(code as u8)
    } else if c == '\u{20AC}' {
        Some(0x80u8)
    } else if c == '\u{201A}' {
        Some(0x82u8)
    } else if c == '\u{0192}' {
        Some(0x83u8)
    } else if c == '\u{201E}' {
        Some(0x84u8)
    } else if c == '\u{2026}' {
        Some(0x85u8)
    } else if c == '\u{2020}' {
        Some(0x86u8)
    } else if c == '\u{2021}' {
        Some(0x87u8)
    } else if c == '\u{02C6}' {
        Some(0x88u8)
    } else if c == '\u{2030}' {
        Some(0x89u8)
    } else if c == '\u{0160}' {
        Some(0x8Au8)
    } else if c == '\u{2039}' {
        Some(0x8Bu8)
    } else if c == '\u{0152}' {
        Some(0x8Cu8)
    } else if c == '\u{017D}' {
        Some(0x8Eu8)
    } else if c == '\u{2018}' {
        Some(0x91u8)
    } else if c == '\u{2019}' {
        Some(0x92u8)
    } else if c == '\u{201C}' {
        Some(0x93u8)
    } else if c == '\u{201D}' {
        Some(0x94u8)
    } else if c == '\u{2022}' {
        Some(0x95u8)
    } else if c == '\u{2013}' {
        Some(0x96u8)
    } else if c == '\u{2014}' {
        Some(0x97u8)
    } else if c == '\u{02DC}' {
        Some(0x98u8)
    } else if c == '\u{2122}' {
        Some(0x99u8)
    } else if c == '\u{0161}' {
        Some(0x9Au8)
    } else if c == '\u{203A}' {
        Some(0x9Bu8)
    } else if c == '\u{0153}' {
        Some(0x9Cu8)
    } else if c == '\u{017E}' {
        Some(0x9Eu8)
    } else if c == '\u{0178}' {
        Some(0x9Fu8)
    } else {
        None
    }
}

/// The bytes written for `content`. A file read as Windows-1252 (`legacy`)
/// is written back as Windows-1252 where every character of the content
/// has a byte there; otherwise, and for every other file, as UTF-8. The
/// byte order mark goes in front when asked. The second value tells which
/// was written: `true` for Windows-1252.
pub fn encode(content: &str, legacy: bool, with_bom: bool) -> (r: (Vec<u8>, bool))
    ensures
        r.1 == (legacy && fits_windows_1252(content@)),
        r.0@ == bom_prefix(with_bom) + if r.1 {
            encode_windows_1252_spec(content@)
        } else {
            encode_utf8(content@)
        },
{
    let mut bytes: Vec<u8> = Vec::new();
    if with_bom {
        bytes.push(0xEF);
        bytes.push(0xBB);
        bytes.push(0xBF);
    }
    let ghost head = bytes@;
    assert(head =~= bom_prefix(with_bom));
    if legacy {
        let chars = chars_of(content);
        let mut legacy_bytes: Vec<u8> = Vec::new();
        let mut fits = true;
        let mut i: usize = 0;
        while i < chars.len() && fits
            invariant
                i <= chars@.len(),
                chars@ == content@,
                fits ==> legacy_bytes@ == encode_windows_1252_spec(content@).take(i as int),
                fits ==> forall|k: int| 0 <= k < i ==> #[trigger] windows_1252_byte(content@[k]) is Some,
                !fits ==> !fits_windows_1252(content@),
            decreases chars@.len() - i,
        {
            match windows_1252_byte_of(chars[i]) {
                Some(byte) => {
                    legacy_bytes.push(byte);
                    assert(legacy_bytes@ =~= encode_windows_1252_spec(content@).take(i as int + 1));
                },
                None => {
                    assert(windows_1252_byte(content@[i as int]) is None);
                    fits = false;
                },
            }
            i = i + 1;
        }
        if fits {
            assert(encode_windows_1252_spec(content@).take(content@.len() as int) =~= encode_windows_1252_spec(
                content@,
            ));
            let ghost before = bytes@;
            bytes.append(&mut legacy_bytes);
            assert(bytes@ =~= head + encode_windows_1252_spec(content@));
            return (bytes, true);
        }
    }
    let source = content.as_bytes();
    let mut i: usize = 0;
    while i < source.len()
        invariant
            i <= source@.len(),
            bytes@ == head + source@.take(i as int),
        decreases source@.len() - i,
    {
        bytes.push(source[i]);
        i = i + 1;
        assert(bytes@ =~= head + source@.take(i as int));
    }
    assert(source@.take(source@.len() as int) =~= source@);
    (bytes, false)
}

/// Law: text written as Windows-1252 reads back as Windows-1252 to the
/// same text.
pub proof fn law_windows_1252_round_trip(content: Seq<char>)
    requires
        fits_windows_1252(content),
    ensures
        Seq::new(
            encode_windows_1252_spec(content).len(),
            |i: int| windows_1252(encode_windows_1252_spec(content)[i]),
        ) == content,
{
    assert forall|i: int| 0 <= i < content.len() implies windows_1252(
        #[trigger] encode_windows_1252_spec(content)[i],
    ) == content[i] by {
        let c = content[i];
        assert(windows_1252_byte(c) is Some);
        if (c as u32) < 0x80 || (0xA0 <= (c as u32) && (c as u32) <= 0xFF) {
            let v: u32 = c as u32;
            assert(v <= 0xFF ==> (v as u8) as u32 == v) by (bit_vector);
            vstd::utf8::char_u32_cast(c, v);
            assert((v as u8) as char == v as char);
            assert((v as u8) as char == c);
            assert(windows_1252(v as u8) == (v as u8) as char);
            assert(encode_windows_1252_spec(content)[i] == v as u8);
        }
    }
    assert(Seq::new(
        encode_windows_1252_spec(content).len(),
        |i: int| windows_1252(encode_windows_1252_spec(content)[i]),
    ) =~= content);
}

/// Law: text written with a byte order mark reads back as the same text,
/// with the mark noticed and no fallback to Windows-1252.
pub proof fn law_utf8_round_trip(content: Seq<char>)
    ensures
        starts_with_bom(seq![0xEFu8, 0xBBu8, 0xBFu8] + encode_utf8(content)),
        (seq![0xEFu8, 0xBBu8, 0xBFu8] + encode_utf8(content)).skip(3) == encode_utf8(content),
        valid_utf8(encode_utf8(content)),
{
    assert((seq![0xEFu8, 0xBBu8, 0xBFu8] + encode_utf8(content)).skip(3) =~= encode_utf8(content));
    vstd::utf8::encode_utf8_valid_utf8(content);
}

} // verus!
