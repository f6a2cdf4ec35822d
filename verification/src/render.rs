//! The canvas as text: one Braille character for every tile of 2 by 4
//! pixels, or one plain character for every pixel.

use vstd::prelude::*;
use vstd::arithmetic::div_mod::lemma_fundamental_div_mod_converse;
use crate::canvas::Canvas;
use crate::glyph::{braille, translate_pixels_group};
use crate::raster::{Raster, lemma_offset_in_storage};

verus! {

/// `String::push` of std: it appends the character to the end of the string
/// and changes nothing else.
pub assume_specification[ String::push ](s: &mut String, ch: char)
    ensures
        final(s)@ == old(s)@.push(ch),
;

/// The character that shows one pixel: a dot for off, an at sign for on, and
/// a question mark for any other byte.
pub open spec fn ascii_glyph(value: u8) -> char {
    if value == 0 {
        '.'
    } else if value == 1 {
        '@'
    } else {
        '?'
    }
}

impl Raster {
    /// 1 where the pixel `(x, y)` is on, 0 where it is off or outside.
    pub open spec fn lit(self, x: int, y: int) -> int {
        if self.pixel(x, y) != 0 {
            1
        } else {
            0
        }
    }

    /// The byte of the tile whose top left pixel is `(x, y)`. Bits 0 to 2 are
    /// the first three pixels of the left column, bits 3 to 5 those of the
    /// right column, and bits 6 and 7 the fourth row, left and right.
    pub open spec fn tile(self, x: int, y: int) -> int {
        self.lit(x, y) + 2 * self.lit(x, y + 1) + 4 * self.lit(x, y + 2) + 8 * self.lit(x + 1, y)
            + 16 * self.lit(x + 1, y + 1) + 32 * self.lit(x + 1, y + 2) + 64 * self.lit(x, y + 3)
            + 128 * self.lit(x + 1, y + 3)
    }

    /// The number of tiles in a row: a last tile may be half outside.
    pub open spec fn tiles_per_row(self) -> int {
        (self.width as int + 1) / 2
    }

    /// The number of rows of tiles: the last row may be partly outside.
    pub open spec fn tile_rows(self) -> int {
        (self.height as int + 3) / 4
    }

    /// The grid as Braille text: for each row of tiles, the characters of its
    /// tiles from left to right and then a line break.
    pub open spec fn braille_text(self) -> Seq<char> {
        let line = self.tiles_per_row() + 1;
        Seq::new(
            (self.tile_rows() * line) as nat,
            |n: int|
                if n % line == line - 1 {
                    '\n'
                } else {
                    braille(self.tile(2 * (n % line), 4 * (n / line)) as u8)
                },
        )
    }

    /// The grid as plain text: for each row, one character for each of its
    /// pixels and then a line break.
    pub open spec fn ascii_text(self) -> Seq<char> {
        let line = self.width as int + 1;
        Seq::new(
            (self.height * line) as nat,
            |n: int|
                if n % line == line - 1 {
                    '\n'
                } else {
                    ascii_glyph(self.pixel(n % line, n / line))
                },
        )
    }

    /// No pixel of the grid is on.
    pub open spec fn all_off(self) -> bool {
        forall|idx: int| 0 <= idx < self.width * self.height ==> self.cells[idx] == 0
    }
}

/// Where in a tile the pixel of bit `bit` lies: how many columns and rows
/// after the tile's top left pixel.
pub open spec fn place_of_bit(bit: int) -> (int, int) {
    if bit == 0 {
        (0, 0)
    } else if bit == 1 {
        (0, 1)
    } else if bit == 2 {
        (0, 2)
    } else if bit == 3 {
        (1, 0)
    } else if bit == 4 {
        (1, 1)
    } else if bit == 5 {
        (1, 2)
    } else if bit == 6 {
        (0, 3)
    } else {
        (1, 3)
    }
}

/// A tile's byte is a byte.
pub proof fn lemma_tile_is_a_byte(r: Raster, x: int, y: int)
    ensures
        0 <= r.tile(x, y) <= 255,
{
}

/// Each bit of a tile's byte is set exactly where its pixel is on.
pub proof fn lemma_tile_bit(r: Raster, x: int, y: int, bit: u8)
    requires
        bit < 8,
    ensures
        ((r.tile(x, y) as u8) >> bit) & 1 == r.lit(
            x + place_of_bit(bit as int).0,
            y + place_of_bit(bit as int).1,
        ),
{
    let b0 = r.lit(x, y) as u8;
    let b1 = r.lit(x, y + 1) as u8;
    let b2 = r.lit(x, y + 2) as u8;
    let b3 = r.lit(x + 1, y) as u8;
    let b4 = r.lit(x + 1, y + 1) as u8;
    let b5 = r.lit(x + 1, y + 2) as u8;
    let b6 = r.lit(x, y + 3) as u8;
    let b7 = r.lit(x + 1, y + 3) as u8;
    let t = r.tile(x, y) as u8;
    assert(t == b0 + 2 * b1 + 4 * b2 + 8 * b3 + 16 * b4 + 32 * b5 + 64 * b6 + 128 * b7);
    assert({
        &&& (t >> 0) & 1 == b0
        &&& (t >> 1) & 1 == b1
        &&& (t >> 2) & 1 == b2
        &&& (t >> 3) & 1 == b3
        &&& (t >> 4) & 1 == b4
        &&& (t >> 5) & 1 == b5
        &&& (t >> 6) & 1 == b6
        &&& (t >> 7) & 1 == b7
    }) by (bit_vector)
        requires
            b0 <= 1,
            b1 <= 1,
            b2 <= 1,
            b3 <= 1,
            b4 <= 1,
            b5 <= 1,
            b6 <= 1,
            b7 <= 1,
            t == b0 + 2 * b1 + 4 * b2 + 8 * b3 + 16 * b4 + 32 * b5 + 64 * b6 + 128 * b7,
    ;
}

/// A grid with no pixel on is rendered as blank Braille patterns only,
/// whatever its dimensions.
pub proof fn lemma_all_off_renders_blank(r: Raster)
    requires
        r.wf(),
        r.all_off(),
    ensures
        r.braille_text().len() == r.tile_rows() * (r.tiles_per_row() + 1),
        forall|n: int|
            0 <= n < r.braille_text().len() ==> r.braille_text()[n] == (if n % (r.tiles_per_row()
                + 1) == r.tiles_per_row() {
                '\n'
            } else {
                '\u{2800}'
            }),
{
    assert forall|x: int, y: int| r.lit(x, y) == 0 by {
        if r.in_bounds(x, y) {
            lemma_offset_in_storage(r, x, y);
        }
    }
    assert(0 <= r.tile_rows() * (r.tiles_per_row() + 1)) by (nonlinear_arith)
        requires
            0 <= r.tile_rows(),
            0 <= r.tiles_per_row(),
    ;
    assert forall|n: int| 0 <= n < r.braille_text().len() implies r.braille_text()[n] == (if n % (
    r.tiles_per_row() + 1) == r.tiles_per_row() {
        '\n'
    } else {
        '\u{2800}'
    }) by {
        let line = r.tiles_per_row() + 1;
        assert(r.tile(2 * (n % line), 4 * (n / line)) == 0);
        assert(braille(0u8) == '\u{2800}');
    }
}

/// The `n`-th character of `line`-long lines is in line `n / line` at place
/// `n % line`.
proof fn lemma_place_in_text(line: int, lines: int, row: int, col: int)
    requires
        0 <= row < lines,
        0 <= col < line,
    ensures
        0 <= row * line + col < lines * line,
        (row * line + col) / line == row,
        (row * line + col) % line == col,
{
    lemma_fundamental_div_mod_converse(row * line + col, line, row, col);
    assert(row * line + line <= lines * line) by (nonlinear_arith)
        requires
            row < lines,
            0 < line,
    ;
    assert(0 <= row * line) by (nonlinear_arith)
        requires
            0 <= row,
            0 < line,
    ;
}

impl Canvas {
    /// The byte of the tile whose top left pixel is `(x, y)`.
    ///
    /// Each bit in the byte corresponds to a different pixel in the tile. The
    /// ordering is chosen so that the byte maps cleanly to the Braille
    /// character set.
    fn tile(&self, x: i64, y: i64) -> (byte: u8)
        requires
            0 <= x <= u32::MAX,
            0 <= y <= u32::MAX,
        ensures
            byte == self@.tile(x as int, y as int),
    {
        let mut byte: u8 = 0;
        if self.pixel_at(x, y) != 0 {
            byte |= 1 << 0;
            assert(0u8 | (1u8 << 0u8) == 1u8) by (bit_vector);
        }
        let ghost b0 = byte;
        if self.pixel_at(x, y + 1) != 0 {
            byte |= 1 << 1;
            assert(b0 | (1u8 << 1u8) == b0 + 2) by (bit_vector)
                requires
                    b0 < 2,
            ;
        }
        let ghost b1 = byte;
        if self.pixel_at(x, y + 2) != 0 {
            byte |= 1 << 2;
            assert(b1 | (1u8 << 2u8) == b1 + 4) by (bit_vector)
                requires
                    b1 < 4,
            ;
        }
        let ghost b2 = byte;
        if self.pixel_at(x + 1, y) != 0 {
            byte |= 1 << 3;
            assert(b2 | (1u8 << 3u8) == b2 + 8) by (bit_vector)
                requires
                    b2 < 8,
            ;
        }
        let ghost b3 = byte;
        if self.pixel_at(x + 1, y + 1) != 0 {
            byte |= 1 << 4;
            assert(b3 | (1u8 << 4u8) == b3 + 16) by (bit_vector)
                requires
                    b3 < 16,
            ;
        }
        let ghost b4 = byte;
        if self.pixel_at(x + 1, y + 2) != 0 {
            byte |= 1 << 5;
            assert(b4 | (1u8 << 5u8) == b4 + 32) by (bit_vector)
                requires
                    b4 < 32,
            ;
        }
        let ghost b5 = byte;
        if self.pixel_at(x, y + 3) != 0 {
            byte |= 1 << 6;
            assert(b5 | (1u8 << 6u8) == b5 + 64) by (bit_vector)
                requires
                    b5 < 64,
            ;
        }
        let ghost b6 = byte;
        if self.pixel_at(x + 1, y + 3) != 0 {
            byte |= 1 << 7;
            assert(b6 | (1u8 << 7u8) == b6 + 128) by (bit_vector)
                requires
                    b6 < 128,
            ;
        }
        byte
    }

    /// Render the canvas into a multi-line string. Pixels are either "on" or
    /// "off".
    ///
    /// This string is designed to be seen by humans, and should not be used
    /// in lieu of iterating over the pixels with `Canvas::get_pixel`.
    /// On pixels are rendered as a raised dot, off pixels as empty space.
    /// Where the last tiles of a row or the last row of tiles reach beyond
    /// the canvas, the pixels that they lack count as off.
    pub fn render(&self) -> (text: String)
        ensures
            text@ == self@.braille_text(),
    {
        let width: i64 = self.width() as i64;
        let height: i64 = self.height() as i64;
        let ghost line = self@.tiles_per_row() + 1;
        let ghost lines = self@.tile_rows();
        let ghost whole = self@.braille_text();
        let mut out = String::new();
        // Iterate over the canvas in tiles 2 wide and 4 tall.
        let mut y: i64 = 0;
        let ghost mut row: int = 0;
        while y < height
            invariant
                width == self@.width,
                height == self@.height,
                width <= u32::MAX,
                height <= u32::MAX,
                line == self@.tiles_per_row() + 1,
                lines == self@.tile_rows(),
                whole == self@.braille_text(),
                y == 4 * row,
                0 <= row <= lines,
                y < height + 4,
                out@ == whole.take(row * line),
            decreases height + 4 - y,
        {
            let mut x: i64 = 0;
            let ghost mut col: int = 0;
            while x < width
                invariant
                    width == self@.width,
                    height == self@.height,
                    width <= u32::MAX,
                    height <= u32::MAX,
                    line == self@.tiles_per_row() + 1,
                    lines == self@.tile_rows(),
                    whole == self@.braille_text(),
                    y == 4 * row,
                    0 <= row < lines,
                    x == 2 * col,
                    0 <= col < line,
                    x < width + 2,
                    0 <= y < height,
                    out@ == whole.take(row * line + col),
                decreases width + 2 - x,
            {
                let byte = self.tile(x, y);
                proof {
                    lemma_place_in_text(line, lines, row, col);
                    assert(whole.take(row * line + col).push(whole[row * line + col])
                        =~= whole.take(row * line + col + 1));
                }
                out.push(translate_pixels_group(byte));
                x += 2;
                proof {
                    col = col + 1;
                }
            }
            proof {
                lemma_place_in_text(line, lines, row, col);
                assert(whole.take(row * line + col).push(whole[row * line + col]) =~= whole.take(
                    row * line + col + 1,
                ));
                assert((row + 1) * line == row * line + line) by (nonlinear_arith);
            }
            out.push('\n');
            y += 4;
            proof {
                row = row + 1;
            }
        }
        assert(whole.take(row * line) =~= whole);
        out
    }

    /// Render the canvas with one character for each pixel: `.` for off, `@`
    /// for on and `?` for any other byte, each row on a line of its own.
    pub fn render_ascii(&self) -> (text: String)
        ensures
            text@ == self@.ascii_text(),
    {
        let width: i64 = self.width() as i64;
        let height: i64 = self.height() as i64;
        let ghost line: int = self@.width as int + 1;
        let ghost whole = self@.ascii_text();
        let mut out = String::new();
        let mut y: i64 = 0;
        while y < height
            invariant
                width == self@.width,
                height == self@.height,
                line == self@.width as int + 1,
                whole == self@.ascii_text(),
                0 <= y <= height,
                out@ == whole.take(y * line),
            decreases height - y,
        {
            let mut x: i64 = 0;
            while x < width
                invariant
                    width == self@.width,
                    height == self@.height,
                    line == self@.width as int + 1,
                    whole == self@.ascii_text(),
                    0 <= y < height,
                    0 <= x <= width,
                    out@ == whole.take(y * line + x),
                decreases width - x,
            {
                let value = self.pixel_at(x, y);
                proof {
                    lemma_place_in_text(line, height as int, y as int, x as int);
                    assert(whole.take(y * line + x).push(whole[y * line + x]) =~= whole.take(
                        y * line + x + 1,
                    ));
                }
                if value == 0 {
                    out.push('.');
                } else if value == 1 {
                    out.push('@');
                } else {
                    out.push('?');
                }
                x += 1;
            }
            proof {
                lemma_place_in_text(line, height as int, y as int, x as int);
                assert(whole.take(y * line + x).push(whole[y * line + x]) =~= whole.take(
                    y * line + x + 1,
                ));
                assert((y + 1) * line == y * line + line) by (nonlinear_arith);
            }
            out.push('\n');
            y += 1;
        }
        assert(whole.take(y * line) =~= whole);
        out
    }
}

} // verus!
