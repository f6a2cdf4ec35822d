//! Braille glyphs: one character for every pattern of eight dots.

use vstd::prelude::*;
use vstd::utf8::encode_scalar;

verus! {

/// The code point of the blank Braille pattern, the first of the block.
pub const BRAILLE_BASE: u32 = 0x2800;

/// `char::from_u32` of std: it gives the character whose scalar value is `i`
/// when `i` is a Unicode scalar value (neither a surrogate nor above
/// U+10FFFF), and `None` for every other number.
pub assume_specification[ char::from_u32 ](i: u32) -> (r: Option<char>)
    ensures
        r == (if i <= 0xD7FF || (0xE000 <= i && i <= 0x10FFFF) {
            Some(i as char)
        } else {
            None
        }),
;

/// The Braille pattern that a tile byte stands for.
pub open spec fn braille(byte: u8) -> char {
    (BRAILLE_BASE + byte) as char
}

/// Every byte has a Braille pattern of its own, and every character of the
/// block of Braille patterns, from U+2800 to U+28FF, is the pattern of a byte:
/// the patterns of `a` and `b` lie in the block and differ where `a` and `b`
/// do, and `c`, where it lies in the block, is the pattern of some byte.
pub proof fn lemma_braille_is_a_bijection(a: u8, b: u8, c: char)
    ensures
        braille(a) as u32 == 0x2800 + a,
        0x2800 <= braille(a) as u32 <= 0x28FF,
        braille(a) == braille(b) ==> a == b,
        0x2800 <= c as u32 <= 0x28FF ==> exists|byte: u8| #[trigger] braille(byte) == c,
{
    assert(braille(a) as u32 == 0x2800 + a);
    assert(braille(b) as u32 == 0x2800 + b);
    if 0x2800 <= c as u32 <= 0x28FF {
        let byte = (c as u32 - 0x2800) as u8;
        assert(braille(byte) == c);
    }
}

/// In UTF-8 every Braille pattern takes three bytes: the first is always
/// 0xE2, the second carries the two highest bits of the tile byte and the
/// third its six lowest.
pub proof fn lemma_braille_in_utf8(byte: u8)
    ensures
        encode_scalar(braille(byte) as u32).len() == 3,
        encode_scalar(braille(byte) as u32) == seq![
            0xE2u8,
            0xA0u8 | (byte >> 6),
            0x80u8 | (byte & 0x3F),
        ],
{
    let code: u32 = (0x2800 + byte) as u32;
    assert(braille(byte) as u32 == code);
    assert(0xE0u8 | ((code >> 12) & 0x0F) as u8 == 0xE2u8) by (bit_vector)
        requires
            code == 0x2800 + byte,
    ;
    assert(0x80u8 | ((code >> 6) & 0x3F) as u8 == 0xA0u8 | (byte >> 6)) by (bit_vector)
        requires
            code == 0x2800 + byte,
    ;
    assert(0x80u8 | (code & 0x3F) as u8 == 0x80u8 | (byte & 0x3F)) by (bit_vector)
        requires
            code == 0x2800 + byte,
    ;
    assert(encode_scalar(code) =~= seq![0xE2u8, 0xA0u8 | (byte >> 6), 0x80u8 | (byte & 0x3F)]);
}

/// Translate a group of 8 pixels (a tile 2 wide and 4 tall) into its Braille
/// character. The bits of `byte` correspond to the pixels of the tile so:
///
/// ```text
/// [0] [3]
/// [1] [4]
/// [2] [5]
/// [6] [7]
/// ```
pub fn translate_pixels_group(byte: u8) -> (c: char)
    ensures
        c == braille(byte),
        c as u32 == 0x2800 + byte,
{
    let code: u32 = BRAILLE_BASE + byte as u32;
    match char::from_u32(code) {
        Some(c) => c,
        None => '\u{2800}',
    }
}

} // verus!
