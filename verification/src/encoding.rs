//! Byte-order-mark sniffing and decoding of raw file bytes to UTF-8 text.
//! The decision tree is verified; the decoders of the outside world
//! (UTF-16, windows-1252, lossy UTF-8) are trusted by name.
use vstd::prelude::*;

use crate::textutil::is_space_char;
use crate::textutil::push_char;

verus! {

/// Names what `String::from_utf8_lossy` yields on the given bytes: valid
/// UTF-8 passes through, invalid sequences become replacement characters.
pub uninterp spec fn lossy_utf8_of(bytes: Seq<u8>) -> Seq<char>;

/// Relies on `String::from_utf8_lossy`: decodes bytes as UTF-8, replacing
/// invalid sequences.
#[verifier::external_body]
pub(crate) fn from_utf8_lossy(bytes: &[u8]) -> (r: String)
    ensures
        r@ == lossy_utf8_of(bytes@),
{
    String::from_utf8_lossy(bytes).into_owned()
}

/// Names whether the given bytes are valid UTF-8, as `core::str::from_utf8`
/// decides it.
pub uninterp spec fn utf8_valid_of(bytes: Seq<u8>) -> bool;

/// Relies on `core::str::from_utf8`: succeeds exactly on valid UTF-8. On
/// valid UTF-8 the lossy decoding replaces nothing, so it equals the exact
/// one.
#[verifier::external_body]
fn utf8_valid(bytes: &[u8]) -> (r: bool)
    ensures
        r == utf8_valid_of(bytes@),
{
    core::str::from_utf8(bytes).is_ok()
}

/// Names what `encoding_rs::UTF_16LE.decode` yields on the given bytes: the
/// decoded characters and whether any malformed sequence was met.
pub uninterp spec fn utf16le_decoded_of(bytes: Seq<u8>) -> (Seq<char>, bool);

/// Relies on `encoding_rs::Encoding::decode` with the UTF-16LE encoding:
/// BOM-sniffs, then decodes; the flag reports malformed sequences.
#[verifier::external_body]
fn utf16le_decode(bytes: &[u8]) -> (r: (String, bool))
    ensures
        r.0@ == utf16le_decoded_of(bytes@).0,
        r.1 == utf16le_decoded_of(bytes@).1,
{
    let (decoded, _, had_errors) = encoding_rs::UTF_16LE.decode(bytes);
    (decoded.into_owned(), had_errors)
}

/// Names what `encoding_rs::UTF_16BE.decode` yields on the given bytes.
pub uninterp spec fn utf16be_decoded_of(bytes: Seq<u8>) -> (Seq<char>, bool);

/// Relies on `encoding_rs::Encoding::decode` with the UTF-16BE encoding.
#[verifier::external_body]
fn utf16be_decode(bytes: &[u8]) -> (r: (String, bool))
    ensures
        r.0@ == utf16be_decoded_of(bytes@).0,
        r.1 == utf16be_decoded_of(bytes@).1,
{
    let (decoded, _, had_errors) = encoding_rs::UTF_16BE.decode(bytes);
    (decoded.into_owned(), had_errors)
}

/// Names what `encoding_rs::WINDOWS_1252.decode` yields on the given bytes;
/// every byte maps to a character.
pub uninterp spec fn windows1252_decoded_of(bytes: Seq<u8>) -> Seq<char>;

/// Relies on `encoding_rs::Encoding::decode` with the windows-1252
/// encoding.
#[verifier::external_body]
fn windows1252_decode(bytes: &[u8]) -> (r: String)
    ensures
        r@ == windows1252_decoded_of(bytes@),
{
    let (decoded, _, _) = encoding_rs::WINDOWS_1252.decode(bytes);
    decoded.into_owned()
}

/// Whether `v` is a Unicode scalar value: not a surrogate, not beyond the
/// last code point.
pub open spec fn valid_scalar(v: u32) -> bool {
    v < 0xD800 || (0xE000 <= v && v <= 0x10FFFF)
}

/// The character with code point `v`.
pub open spec fn char_with_code(v: u32) -> char {
    v as char
}

/// Relies on `char::from_u32`: yields the character with the given code
/// point exactly for Unicode scalar values.
#[verifier::external_body]
fn char_from_u32(v: u32) -> (r: Option<char>)
    ensures
        r is Some <==> valid_scalar(v),
        r matches Some(c) ==> c as u32 == v,
{
    char::from_u32(v)
}

/// The characters a UTF-32 stream in the given byte order spells from
/// position `i` on: each full 4-byte unit that holds a Unicode scalar value
/// becomes a character, anything else is dropped.
pub open spec fn utf32_decoded_from(bytes: Seq<u8>, little_endian: bool, i: int) -> Seq<char>
    decreases bytes.len() - i,
{
    if i < 0 || i + 4 > bytes.len() {
        Seq::empty()
    } else {
        let code = (if little_endian {
            (bytes[i] as u32) + (bytes[i + 1] as u32) * 0x100 + (bytes[i + 2] as u32) * 0x10000 + (
            bytes[i + 3] as u32) * 0x1000000
        } else {
            (bytes[i + 3] as u32) + (bytes[i + 2] as u32) * 0x100 + (bytes[i + 1] as u32) * 0x10000
                + (bytes[i] as u32) * 0x1000000
        }) as u32;
        let rest = utf32_decoded_from(bytes, little_endian, i + 4);
        if valid_scalar(code) {
            seq![char_with_code(code)] + rest
        } else {
            rest
        }
    }
}

/// Decodes a UTF-32 stream without its byte-order mark.
fn decode_utf32(input: &[u8], little_endian: bool) -> (r: String)
    ensures
        r@ == utf32_decoded_from(input@, little_endian, 0),
{
    let n = input.len();
    let mut out = String::new();
    let mut i: usize = 0;
    while n >= 4 && i <= n - 4
        invariant
            n == input@.len(),
            i <= n,
            utf32_decoded_from(input@, little_endian, 0) == out@ + utf32_decoded_from(
                input@,
                little_endian,
                i as int,
            ),
        decreases n - i,
    {
        let code: u32 = if little_endian {
            (input[i] as u32) + (input[i + 1] as u32) * 0x100 + (input[i + 2] as u32) * 0x10000 + (
            input[i + 3] as u32) * 0x1000000
        } else {
            (input[i + 3] as u32) + (input[i + 2] as u32) * 0x100 + (input[i + 1] as u32) * 0x10000
                + (input[i] as u32) * 0x1000000
        };
        if let Some(c) = char_from_u32(code) {
            push_char(&mut out, c);
            proof {
                assert(c as u32 == code);
                vstd::utf8::char_u32_cast(c, code);
                assert(char_with_code(code) == c);
                assert(out@ + utf32_decoded_from(input@, little_endian, i + 4) =~= out@.drop_last()
                    + (seq![c] + utf32_decoded_from(input@, little_endian, i + 4)));
            }
        }
        i = i + 4;
    }
    out
}

/// Whether the text holds any character that is not a control character, or
/// any whitespace: the sign that a windows-1252 reading looks like text.
pub open spec fn is_control_char(c: char) -> bool {
    let u = c as u32;
    u < 0x20 || u == 0x7F || (0x80 <= u && u <= 0x9F)
}

pub open spec fn has_visible_char(s: Seq<char>) -> bool {
    exists|i: int| 0 <= i < s.len() && (!is_control_char(s[i]) || is_space_char(#[trigger] s[i]))
}

fn any_visible_char(s: &str) -> (r: bool)
    ensures
        r == has_visible_char(s@),
{
    let n = s.unicode_len();
    let mut i: usize = 0;
    while i < n
        invariant
            n == s@.len(),
            i <= n,
            forall|j: int|
                0 <= j < i ==> (is_control_char(s@[j]) && !is_space_char(#[trigger] s@[j])),
        decreases n - i,
    {
        let c = s.get_char(i);
        let u = c as u32;
        let control = u < 0x20 || u == 0x7F || (0x80 <= u && u <= 0x9F);
        if !control || crate::textutil::is_space(c) {
            return true;
        }
        i = i + 1;
    }
    false
}

/// The text the byte stream spells: after byte-order-mark sniffing for
/// UTF-32, UTF-8 and UTF-16, valid UTF-8 passes through; otherwise a clean
/// UTF-16 reading wins, then a windows-1252 reading that looks like text,
/// then a lossy UTF-8 reading.
pub open spec fn convert_to_utf8_spec(bytes: Seq<u8>) -> Seq<char> {
    if bytes.len() >= 4 && bytes[0] == 0xFF && bytes[1] == 0xFE && bytes[2] == 0x00 && bytes[3]
        == 0x00 {
        utf32_decoded_from(bytes.subrange(4, bytes.len() as int), true, 0)
    } else if bytes.len() >= 4 && bytes[0] == 0x00 && bytes[1] == 0x00 && bytes[2] == 0xFE
        && bytes[3] == 0xFF {
        utf32_decoded_from(bytes.subrange(4, bytes.len() as int), false, 0)
    } else if bytes.len() >= 3 && bytes[0] == 0xEF && bytes[1] == 0xBB && bytes[2] == 0xBF {
        lossy_utf8_of(bytes.subrange(3, bytes.len() as int))
    } else if bytes.len() >= 2 && bytes[0] == 0xFF && bytes[1] == 0xFE {
        utf16le_decoded_of(bytes.subrange(2, bytes.len() as int)).0
    } else if bytes.len() >= 2 && bytes[0] == 0xFE && bytes[1] == 0xFF {
        utf16be_decoded_of(bytes.subrange(2, bytes.len() as int)).0
    } else if utf8_valid_of(bytes) {
        lossy_utf8_of(bytes)
    } else if !utf16le_decoded_of(bytes).1 {
        utf16le_decoded_of(bytes).0
    } else if !utf16be_decoded_of(bytes).1 {
        utf16be_decoded_of(bytes).0
    } else if has_visible_char(windows1252_decoded_of(bytes)) {
        windows1252_decoded_of(bytes)
    } else {
        lossy_utf8_of(bytes)
    }
}

/// Decodes raw file bytes to text: byte-order marks decide first, then
/// UTF-8 validity, then a clean UTF-16 reading, then windows-1252, then a
/// lossy UTF-8 reading as the last resort.
pub fn convert_to_utf8(input: &[u8]) -> (r: String)
    ensures
        r@ == convert_to_utf8_spec(input@),
{
    let n = input.len();
    if n >= 4 {
        if input[0] == 0xFF && input[1] == 0xFE && input[2] == 0x00 && input[3] == 0x00 {
            return decode_utf32(slice_tail(input, 4), true);
        }
        if input[0] == 0x00 && input[1] == 0x00 && input[2] == 0xFE && input[3] == 0xFF {
            return decode_utf32(slice_tail(input, 4), false);
        }
    }
    if n >= 3 && input[0] == 0xEF && input[1] == 0xBB && input[2] == 0xBF {
        return from_utf8_lossy(slice_tail(input, 3));
    }
    if n >= 2 {
        if input[0] == 0xFF && input[1] == 0xFE {
            return utf16le_decode(slice_tail(input, 2)).0;
        }
        if input[0] == 0xFE && input[1] == 0xFF {
            return utf16be_decode(slice_tail(input, 2)).0;
        }
    }
    if utf8_valid(input) {
        return from_utf8_lossy(input);
    }
    let (le_text, le_errors) = utf16le_decode(input);
    if !le_errors {
        return le_text;
    }
    let (be_text, be_errors) = utf16be_decode(input);
    if !be_errors {
        return be_text;
    }
    let decoded = windows1252_decode(input);
    if any_visible_char(decoded.as_str()) {
        return decoded;
    }
    from_utf8_lossy(input)
}

/// Relies on slice range indexing: the elements from `from` to the end.
#[verifier::external_body]
fn slice_tail<'a>(s: &'a [u8], from: usize) -> (r: &'a [u8])
    requires
        from <= s@.len(),
    ensures
        r@ == s@.subrange(from as int, s@.len() as int),
{
    &s[from..]
}

} // verus!
