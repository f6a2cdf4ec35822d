//! The canvas: a pixel grid of fixed dimensions that owns its storage.

use vstd::prelude::*;
use crate::error::CanvasError;
use crate::line::{
    lemma_line_has_both_ends, lemma_line_start_grows, lemma_line_start_of_all,
    lemma_line_start_of_none, lemma_line_step, line_error, line_len, on_line, rank, span,
    steps_along,
};
use crate::raster::{Raster, lemma_offset_in_storage};

verus! {

/// The Canvas represents the area that is drawn in. Each pixel is one byte:
/// 0 is "off", 1 is "on", and any other byte is kept as it was written and
/// counts as on wherever only on and off are told apart.
pub struct Canvas {
    pixels: Vec<u8>,
    width: u32,
    height: u32,
}

/// The number of bytes that a canvas of the given dimensions needs, stopping
/// at the largest `usize` where the product is beyond it.
pub open spec fn needed_bytes(width: u32, height: u32) -> usize {
    if width * height <= usize::MAX {
        (width * height) as usize
    } else {
        usize::MAX
    }
}

impl View for Canvas {
    type V = Raster;

    closed spec fn view(&self) -> Raster {
        Raster { width: self.width as nat, height: self.height as nat, cells: self.pixels@ }
    }
}

impl Canvas {
    #[verifier::type_invariant]
    spec fn inv(self) -> bool {
        self.width * self.height <= self.pixels@.len()
    }

    /// Create a Canvas of the specified size, all of it off. The only
    /// dimensions refused are those whose pixels no buffer can hold, which
    /// are reported with the largest size a buffer can have as `actual`.
    pub fn create(width: u32, height: u32) -> (r: Result<Canvas, CanvasError>)
        ensures
            r is Ok <==> width * height <= isize::MAX,
            r matches Ok(canvas) ==> canvas@ == Raster::blank(width as nat, height as nat)
                && canvas@.wf(),
            r matches Err(e) ==> e == (CanvasError::PixelBufferTooSmall {
                needed: needed_bytes(width, height),
                actual: isize::MAX as usize,
            }),
    {
        let limit: usize = isize::MAX as usize;
        match (width as usize).checked_mul(height as usize) {
            Some(needed) if needed <= limit => {
                let pixels: Vec<u8> = vec![0u8; needed];
                assert(pixels@ =~= Seq::new((width * height) as nat, |i: int| 0u8));
                Ok(Canvas { pixels, width, height })
            },
            Some(needed) => Err(CanvasError::PixelBufferTooSmall { needed, actual: limit }),
            None => Err(CanvasError::PixelBufferTooSmall { needed: usize::MAX, actual: limit }),
        }
    }

    /// Create a Canvas of the specified size on a buffer that the caller
    /// brings, which is kept as it is. The buffer must hold at least
    /// `width * height` bytes.
    pub fn create_with_pixels(width: u32, height: u32, pixels: Vec<u8>) -> (r: Result<
        Canvas,
        CanvasError,
    >)
        ensures
            r is Ok <==> width * height <= pixels@.len(),
            r matches Ok(canvas) ==> canvas@ == (Raster {
                width: width as nat,
                height: height as nat,
                cells: pixels@,
            }) && canvas@.wf(),
            r matches Err(e) ==> e == (CanvasError::PixelBufferTooSmall {
                needed: needed_bytes(width, height),
                actual: pixels@.len() as usize,
            }),
    {
        let actual: usize = pixels.len();
        match (width as usize).checked_mul(height as usize) {
            Some(needed) if needed <= actual => Ok(Canvas { pixels, width, height }),
            Some(needed) => Err(CanvasError::PixelBufferTooSmall { needed, actual }),
            None => Err(CanvasError::PixelBufferTooSmall { needed: usize::MAX, actual }),
        }
    }

    /// The number of pixels in a row.
    pub fn width(&self) -> (w: u32)
        ensures
            w == self@.width,
            self@.wf(),
    {
        proof {
            use_type_invariant(self);
        }
        self.width
    }

    /// The number of rows.
    pub fn height(&self) -> (h: u32)
        ensures
            h == self@.height,
            self@.wf(),
    {
        proof {
            use_type_invariant(self);
        }
        self.height
    }

    /// Set every byte of the storage to `value`, in one pass.
    fn paint(&mut self, value: u8)
        ensures
            final(self)@ == old(self)@.filled(value),
    {
        let n: usize = self.pixels.len();
        let mut i: usize = 0;
        while i < n
            invariant
                i <= n,
                n == self.pixels@.len(),
                self.pixels@.len() == old(self).pixels@.len(),
                self.width == old(self).width,
                self.height == old(self).height,
                forall|k: int| 0 <= k < i ==> self.pixels@[k] == value,
            decreases n - i,
        {
            proof {
                use_type_invariant(&*self);
            }
            self.pixels[i] = value;
            i += 1;
        }
        assert(self.pixels@ =~= Seq::new(old(self).pixels@.len(), |k: int| value));
    }

    /// Set all pixel values to clear.
    pub fn clear(&mut self)
        ensures
            final(self)@ == old(self)@.filled(0),
    {
        self.paint(0);
    }

    /// Set all pixel values to set.
    pub fn fill(&mut self)
        ensures
            final(self)@ == old(self)@.filled(1),
    {
        self.paint(1);
    }

    /// Construct an index into the pixels buffer from an `(x, y)` coordinate:
    /// `None` when the coordinate is outside the canvas. This is the one
    /// place where a coordinate becomes an index.
    fn index(&self, x: i64, y: i64) -> (r: Option<usize>)
        ensures
            r is Some <==> self@.in_bounds(x as int, y as int),
            r matches Some(i) ==> i == self@.offset(x as int, y as int) && i < self.pixels@.len(),
    {
        if 0 <= x && x < self.width as i64 && 0 <= y && y < self.height as i64 {
            proof {
                use_type_invariant(self);
                lemma_offset_in_storage(self@, x as int, y as int);
                assert(self@.offset(x as int, y as int) == (y as int) * (self.width as int) + x);
                assert(0 <= (y as int) * (self.width as int)) by (nonlinear_arith)
                    requires
                        0 <= y,
                        0 <= self.width,
                ;
                assert(self.pixels@.len() == self.pixels.len());
            }
            // Inside the canvas, so the index is below the buffer's length.
            let row: usize = y as usize * self.width as usize;
            Some(row + x as usize)
        } else {
            None
        }
    }

    /// The byte at `(x, y)` for coordinates of any size, off outside.
    pub(crate) fn pixel_at(&self, x: i64, y: i64) -> (value: u8)
        ensures
            value == self@.pixel(x as int, y as int),
    {
        match self.index(x, y) {
            Some(index) => self.pixels[index],
            None => 0,
        }
    }

    /// Get the pixel at `(x, y)`. Out of bounds pixels are read as empty (0).
    pub fn get_pixel(&self, x: i32, y: i32) -> (value: u8)
        ensures
            value == self@.pixel(x as int, y as int),
    {
        self.pixel_at(x as i64, y as i64)
    }

    /// Draw a single pixel at `(x, y)`. Out of bounds writes are ignored.
    pub fn draw_pixel(&mut self, x: i32, y: i32, color: u8)
        ensures
            final(self)@ == old(self)@.set_pixel(x as int, y as int, color),
    {
        proof {
            use_type_invariant(&*self);
        }
        match self.index(x as i64, y as i64) {
            Some(index) => {
                self.pixels[index] = color;
            },
            None => {},
        }
    }

    /// Get the pixel at `(x, y)`, or the error for a coordinate outside the
    /// canvas.
    pub fn try_get_pixel(&self, x: i32, y: i32) -> (r: Result<u8, CanvasError>)
        ensures
            r is Ok <==> self@.in_bounds(x as int, y as int),
            r matches Ok(value) ==> value == self@.pixel(x as int, y as int),
            r matches Err(e) ==> e == (CanvasError::OutOfBounds {
                x,
                y,
                width: self@.width as u32,
                height: self@.height as u32,
            }),
    {
        match self.index(x as i64, y as i64) {
            Some(index) => Ok(self.pixels[index]),
            None => Err(
                CanvasError::OutOfBounds { x, y, width: self.width, height: self.height },
            ),
        }
    }

    /// Draw a single pixel at `(x, y)`, or leave the canvas as it is and give
    /// the error for a coordinate outside it.
    pub fn try_draw_pixel(&mut self, x: i32, y: i32, color: u8) -> (r: Result<(), CanvasError>)
        ensures
            r is Ok <==> old(self)@.in_bounds(x as int, y as int),
            final(self)@ == old(self)@.set_pixel(x as int, y as int, color),
            r matches Err(e) ==> e == (CanvasError::OutOfBounds {
                x,
                y,
                width: old(self)@.width as u32,
                height: old(self)@.height as u32,
            }),
    {
        proof {
            use_type_invariant(&*self);
        }
        match self.index(x as i64, y as i64) {
            Some(index) => {
                self.pixels[index] = color;
                Ok(())
            },
            None => Err(
                CanvasError::OutOfBounds { x, y, width: self.width, height: self.height },
            ),
        }
    }

    /// Draw a line from `(x1, y1)` to `(x2, y2)` using the Bresenham
    /// algorithm. The points of the line that lie outside the canvas are
    /// left out.
    pub fn draw_line(&mut self, x1: i32, y1: i32, x2: i32, y2: i32, color: u8)
        ensures
            final(self)@ == old(self)@.line(x1 as int, y1 as int, x2 as int, y2 as int, color),
    {
        let sx: i64 = if x1 < x2 { 1 } else { -1 };
        let sy: i64 = if y1 < y2 { 1 } else { -1 };
        let end_x: i64 = x2 as i64;
        let end_y: i64 = y2 as i64;
        let dx: i64 = if x1 < x2 { end_x - x1 as i64 } else { x1 as i64 - end_x };
        let dy: i64 = if y1 < y2 { end_y - y1 as i64 } else { y1 as i64 - end_y };

        let mut x: i64 = x1 as i64;
        let mut y: i64 = y1 as i64;
        let mut err: i64 = dx - dy;
        let ghost before = self@;
        let ghost mut count: int = 0;
        proof {
            use_type_invariant(&*self);
            lemma_line_has_both_ends(x1 as int, y1 as int, x2 as int, y2 as int);
            lemma_line_start_of_none(before, x1 as int, y1 as int, x2 as int, y2 as int, color);
            assert(0 * dy - 0 * dx == 0);
        }

        loop
            invariant_except_break
                self@ == before.line_start(
                    x1 as int,
                    y1 as int,
                    x2 as int,
                    y2 as int,
                    color,
                    count,
                ),
            invariant
                before.wf(),
                end_x == x2,
                end_y == y2,
                dx == span(x1 as int, x2 as int),
                dy == span(y1 as int, y2 as int),
                sx == (if x1 < x2 { 1int } else { -1int }),
                sy == (if y1 < y2 { 1int } else { -1int }),
                i32::MIN <= x <= i32::MAX,
                i32::MIN <= y <= i32::MAX,
                on_line(x1 as int, y1 as int, x2 as int, y2 as int, x as int, y as int),
                count == rank(x1 as int, y1 as int, x2 as int, y2 as int, x as int, y as int),
                err == line_error(
                    dx as int,
                    dy as int,
                    steps_along(x1 as int, x2 as int, x as int),
                    steps_along(y1 as int, y2 as int, y as int),
                ),
            ensures
                self@ == before.line(x1 as int, y1 as int, x2 as int, y2 as int, color),
            decreases line_len(x1 as int, y1 as int, x2 as int, y2 as int) - count,
        {
            proof {
                lemma_line_start_grows(
                    before,
                    x1 as int,
                    y1 as int,
                    x2 as int,
                    y2 as int,
                    color,
                    count,
                    x as int,
                    y as int,
                );
            }
            self.draw_pixel(x as i32, y as i32, color);
            if x == end_x && y == end_y {
                proof {
                    lemma_line_start_of_all(
                        before,
                        x1 as int,
                        y1 as int,
                        x2 as int,
                        y2 as int,
                        color,
                    );
                }
                break ;
            }
            proof {
                lemma_line_step(
                    dx as int,
                    dy as int,
                    steps_along(x1 as int, x2 as int, x as int),
                    steps_along(y1 as int, y2 as int, y as int),
                );
                count = count + 1;
            }

            let e2: i64 = 2 * err;
            if e2 > -dy {
                err -= dy;
                x += sx;
            }
            if e2 < dx {
                err += dx;
                y += sy;
            }
        }
    }
}

} // verus!
