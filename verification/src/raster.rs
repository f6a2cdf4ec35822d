//! The mathematical model of a canvas: a grid of bytes stored row by row.

use vstd::prelude::*;
use vstd::arithmetic::div_mod::{lemma_fundamental_div_mod, lemma_fundamental_div_mod_converse};

verus! {

/// A grid `width` wide and `height` tall whose pixels are the first
/// `width * height` entries of `cells`, row after row. A pixel is off when its
/// byte is 0 and on for every other byte.
pub struct Raster {
    pub width: nat,
    pub height: nat,
    pub cells: Seq<u8>,
}

impl Raster {
    /// The storage holds every pixel of the grid.
    pub open spec fn wf(self) -> bool {
        &&& self.width <= u32::MAX
        &&& self.height <= u32::MAX
        &&& self.width * self.height <= self.cells.len()
    }

    /// `(x, y)` names a pixel of the grid.
    pub open spec fn in_bounds(self, x: int, y: int) -> bool {
        0 <= x < self.width && 0 <= y < self.height
    }

    /// Where the pixel `(x, y)` lies in `cells`: rows are `width` apart.
    pub open spec fn offset(self, x: int, y: int) -> int {
        y * self.width + x
    }

    /// The byte of the pixel `(x, y)`; every coordinate outside the grid reads
    /// as off.
    pub open spec fn pixel(self, x: int, y: int) -> u8 {
        if self.in_bounds(x, y) {
            self.cells[self.offset(x, y)]
        } else {
            0
        }
    }

    /// The grid with the pixel `(x, y)` set to `value`; a coordinate outside
    /// the grid changes nothing.
    pub open spec fn set_pixel(self, x: int, y: int, value: u8) -> Raster {
        if self.in_bounds(x, y) {
            Raster { cells: self.cells.update(self.offset(x, y), value), ..self }
        } else {
            self
        }
    }

    /// The grid with every byte of its storage set to `value`.
    pub open spec fn filled(self, value: u8) -> Raster {
        Raster { cells: Seq::new(self.cells.len(), |i: int| value), ..self }
    }

    /// The column of the pixel stored at `idx`.
    pub open spec fn column_of(self, idx: int) -> int {
        idx % (self.width as int)
    }

    /// The row of the pixel stored at `idx`.
    pub open spec fn row_of(self, idx: int) -> int {
        idx / (self.width as int)
    }

    /// The grid of the given dimensions with exactly as much storage as it
    /// needs, all of it off.
    pub open spec fn blank(width: nat, height: nat) -> Raster {
        Raster { width, height, cells: Seq::new(width * height, |i: int| 0u8) }
    }
}

/// A pixel inside a grid has its own place in the storage: the offset is
/// below `width * height`.
pub proof fn lemma_offset_in_storage(r: Raster, x: int, y: int)
    requires
        r.wf(),
        r.in_bounds(x, y),
    ensures
        0 <= r.offset(x, y) < r.width * r.height,
        r.offset(x, y) < r.cells.len(),
{
    assert(y * r.width + r.width <= r.height * r.width) by (nonlinear_arith)
        requires
            0 <= y < r.height,
            0 <= r.width,
    ;
    assert(0 <= y * r.width) by (nonlinear_arith)
        requires
            0 <= y,
            0 <= r.width,
    ;
    assert(r.height * r.width == r.width * r.height) by (nonlinear_arith);
}

/// The pixel stored at the offset of `(x, y)` is `(x, y)`.
pub proof fn lemma_pixel_of_offset(r: Raster, x: int, y: int)
    requires
        r.in_bounds(x, y),
    ensures
        r.column_of(r.offset(x, y)) == x,
        r.row_of(r.offset(x, y)) == y,
{
    lemma_fundamental_div_mod_converse(r.offset(x, y), r.width as int, y, x);
}

/// Every byte of the first `width * height` is the byte of a pixel of the
/// grid, the one in its row and column.
pub proof fn lemma_offset_of_pixel(r: Raster, idx: int)
    requires
        0 <= idx < r.width * r.height,
    ensures
        r.in_bounds(r.column_of(idx), r.row_of(idx)),
        r.offset(r.column_of(idx), r.row_of(idx)) == idx,
{
    let w = r.width as int;
    let h = r.height as int;
    assert(w > 0) by (nonlinear_arith)
        requires
            0 <= idx < w * h,
            0 <= w,
    ;
    lemma_fundamental_div_mod(idx, w);
    let q = idx / w;
    let m = idx % w;
    assert(0 <= m < w);
    assert(w * q == q * w) by (nonlinear_arith);
    assert(0 <= q < h) by (nonlinear_arith)
        requires
            idx == w * q + m,
            0 <= m < w,
            0 <= idx < w * h,
    ;
}

/// Two pixels of a grid that share an offset are the same pixel.
pub proof fn lemma_offset_injective(r: Raster, x1: int, y1: int, x2: int, y2: int)
    requires
        r.in_bounds(x1, y1),
        r.in_bounds(x2, y2),
        r.offset(x1, y1) == r.offset(x2, y2),
    ensures
        x1 == x2,
        y1 == y2,
{
    let w = r.width as int;
    if y1 < y2 {
        assert(y1 * w + w <= y2 * w) by (nonlinear_arith)
            requires
                y1 < y2,
                0 <= w,
        ;
    } else if y2 < y1 {
        assert(y2 * w + w <= y1 * w) by (nonlinear_arith)
            requires
                y2 < y1,
                0 <= w,
        ;
    }
}

/// A write keeps the grid's shape: its dimensions, the size of its storage
/// and that the storage holds every pixel.
pub proof fn lemma_write_keeps_shape(r: Raster, x: int, y: int, value: u8)
    requires
        r.wf(),
    ensures
        r.set_pixel(x, y, value).wf(),
        r.set_pixel(x, y, value).width == r.width,
        r.set_pixel(x, y, value).height == r.height,
        r.set_pixel(x, y, value).cells.len() == r.cells.len(),
{
    if r.in_bounds(x, y) {
        lemma_offset_in_storage(r, x, y);
    }
}

/// Writing a pixel inside the grid and reading it back gives the byte that was
/// written, whatever the byte.
pub proof fn lemma_write_then_read(r: Raster, x: int, y: int, value: u8)
    requires
        r.wf(),
        r.in_bounds(x, y),
    ensures
        r.set_pixel(x, y, value).wf(),
        r.set_pixel(x, y, value).pixel(x, y) == value,
{
    lemma_offset_in_storage(r, x, y);
}

/// Writing one pixel leaves every other pixel as it was.
pub proof fn lemma_write_keeps_others(r: Raster, x: int, y: int, value: u8, px: int, py: int)
    requires
        r.wf(),
        px != x || py != y,
    ensures
        r.set_pixel(x, y, value).pixel(px, py) == r.pixel(px, py),
{
    if r.in_bounds(x, y) && r.in_bounds(px, py) {
        lemma_offset_in_storage(r, x, y);
        lemma_offset_in_storage(r, px, py);
        if r.offset(x, y) == r.offset(px, py) {
            lemma_offset_injective(r, x, y, px, py);
        }
    }
}

/// Outside the grid a write does nothing and a read gives the off value.
pub proof fn lemma_outside_is_inert(r: Raster, x: int, y: int, value: u8)
    requires
        !r.in_bounds(x, y),
    ensures
        r.set_pixel(x, y, value) == r,
        r.pixel(x, y) == 0,
{
}

} // verus!
