//! Georg Nees's "Schotter": a grid of squares that grow more disordered from
//! row to row. This module lays the grid out and draws the squares; how far
//! each square is turned and moved is for the caller to choose.

use vstd::prelude::*;
use vstd::arithmetic::div_mod::{lemma_fundamental_div_mod, lemma_fundamental_div_mod_converse};
use crate::canvas::Canvas;
use crate::error::CanvasError;
use crate::raster::Raster;
use crate::square::Point;

verus! {

/// The quotient of `a` by `b` rounded to the nearest whole number, a half
/// rounded up.
pub open spec fn round_div(a: int, b: int) -> int {
    a / b + if 2 * (a % b) >= b { 1int } else { 0int }
}

/// What a composition is asked for: the width of the console in columns, and
/// the number of squares in each row and in each column of the grid.
pub struct Request {
    pub console_cols: int,
    pub squares_per_row: int,
    pub squares_per_col: int,
}

impl Request {
    /// All three numbers are positive.
    pub open spec fn valid(self) -> bool {
        &&& 0 < self.console_cols <= i32::MAX
        &&& 0 < self.squares_per_row <= i32::MAX
        &&& 0 < self.squares_per_col <= i32::MAX
    }

    /// The width of the canvas in pixels: a console column shows two.
    pub open spec fn needed_width(self) -> int {
        2 * self.console_cols
    }

    /// The empty border around the grid, in pixels, on each side.
    pub open spec fn padding(self) -> int {
        if self.needed_width() > 4 {
            2
        } else {
            0
        }
    }

    /// The width that the squares of a row share. The side of a square is
    /// this number divided by `squares_per_row`.
    pub open spec fn side_numerator(self) -> int {
        self.needed_width() - 2 * self.padding()
    }

    /// The height of the canvas in pixels: the squares of a column and the
    /// border above and below, rounded to whole pixels. It can be more than
    /// any canvas has rows.
    pub open spec fn needed_height(self) -> int {
        round_div(self.side_numerator() * self.squares_per_col, self.squares_per_row) + 2
            * self.padding()
    }

    /// The needed height as an error reports it: where it is beyond the
    /// largest `u32`, that number stands for it.
    pub open spec fn reported_height(self) -> u32 {
        if self.needed_height() <= u32::MAX {
            self.needed_height() as u32
        } else {
            u32::MAX
        }
    }

    /// Where the middle of the square number `k` of a row or a column lies
    /// before it is moved: `k` sides and half a side after the border,
    /// rounded to whole pixels.
    pub open spec fn center(self, k: int) -> int {
        round_div((2 * k + 1) * self.side_numerator(), 2 * self.squares_per_row) + self.padding()
    }

    /// The canvas is large enough for the composition: as wide and as tall
    /// as the composition needs, or more.
    pub open spec fn fits(self, canvas: Raster) -> bool {
        self.needed_width() <= canvas.width && self.needed_height() <= canvas.height
    }

    /// The error of a canvas that is too small for the composition.
    pub open spec fn too_small(self, canvas: Raster) -> CanvasError {
        CanvasError::CanvasTooSmall {
            needed_width: self.needed_width() as u32,
            actual_width: canvas.width as u32,
            needed_height: self.reported_height(),
            actual_height: canvas.height as u32,
        }
    }

    /// The number of pixels of the canvas needed.
    pub open spec fn needed_pixels(self) -> int {
        self.needed_width() * self.needed_height()
    }

    /// A canvas of the needed dimensions can be made: it has no more rows
    /// than a canvas can have, and no more pixels than a buffer can hold.
    pub open spec fn can_be_made(self) -> bool {
        self.needed_height() <= u32::MAX && self.needed_pixels() <= isize::MAX
    }

    /// The most pixels that a canvas of the needed width can have: the
    /// largest number of rows, as far as a buffer can hold them.
    pub open spec fn most_pixels(self) -> int {
        if self.needed_width() * u32::MAX <= isize::MAX {
            self.needed_width() * u32::MAX
        } else {
            isize::MAX as int
        }
    }

    /// The error of a composition whose canvas cannot be made: the pixels
    /// that it needs, stopping at the largest `usize`, and the most that a
    /// canvas of its width can have.
    pub open spec fn too_large(self) -> CanvasError {
        CanvasError::PixelBufferTooSmall {
            needed: if self.needed_pixels() <= usize::MAX {
                self.needed_pixels() as usize
            } else {
                usize::MAX
            },
            actual: self.most_pixels() as usize,
        }
    }

    /// The canvas of exactly the dimensions needed, all of it off.
    pub open spec fn blank_canvas(self) -> Raster {
        Raster::blank(self.needed_width() as nat, self.needed_height() as nat)
    }

    /// The number of squares of the grid.
    pub open spec fn cell_count(self) -> int {
        self.squares_per_row * self.squares_per_col
    }

    /// The `n`-th square of the grid in the order of drawing: row after row
    /// from the top, each row from the left.
    pub open spec fn cell(self, n: int) -> Cell {
        let col = n % self.squares_per_row;
        let row = n / self.squares_per_row;
        Cell {
            col: col as i32,
            row: row as i32,
            center_x: self.center(col) as i64,
            center_y: self.center(row) as i64,
        }
    }
}

/// The request made of the three numbers.
pub open spec fn request(console_cols: i32, squares_per_row: i32, squares_per_col: i32) -> Request {
    Request {
        console_cols: console_cols as int,
        squares_per_row: squares_per_row as int,
        squares_per_col: squares_per_col as int,
    }
}

/// A place of the grid: its column and row, counted from 0, and the middle of
/// the square that stands there before it is moved. The middle is held in
/// numbers wide enough for every layout.
#[derive(Debug, Copy, Clone, PartialEq, Eq, Structural)]
pub struct Cell {
    pub col: i32,
    pub row: i32,
    pub center_x: i64,
    pub center_y: i64,
}

/// The layout of a composition: the canvas that it needs and the grid of
/// squares on it.
#[derive(Debug, Copy, Clone)]
pub struct Layout {
    console_cols: i32,
    squares_per_row: i32,
    squares_per_col: i32,
    needed_width: u32,
    needed_height: u64,
    padding: u32,
    side_numerator: u32,
}

impl View for Layout {
    type V = Request;

    closed spec fn view(&self) -> Request {
        Request {
            console_cols: self.console_cols as int,
            squares_per_row: self.squares_per_row as int,
            squares_per_col: self.squares_per_col as int,
        }
    }
}

/// The nearest whole number to `a / b`, a half rounded up.
fn rounded_quotient(a: u64, b: u64) -> (q: u64)
    requires
        0 < b <= 0x1_0000_0000,
    ensures
        q == round_div(a as int, b as int),
        q <= a,
        b >= 2 ==> 2 * q <= a + 2,
{
    let whole: u64 = a / b;
    let rest: u64 = a % b;
    proof {
        lemma_fundamental_div_mod(a as int, b as int);
        assert(whole <= a && (rest > 0 ==> whole < a) && (b >= 2 ==> 2 * whole <= a))
            by (nonlinear_arith)
            requires
                a == b * whole + rest,
                0 <= rest,
                0 < b,
                0 <= whole,
        ;
    }
    if 2 * rest >= b {
        whole + 1
    } else {
        whole
    }
}

/// A height as an error reports it: the largest `u32` stands for every
/// height beyond it.
fn reported(height: u64) -> (h: u32)
    ensures
        h == (if height <= u32::MAX { height as u32 } else { u32::MAX }),
{
    if height <= u32::MAX as u64 {
        height as u32
    } else {
        u32::MAX
    }
}

/// Lay out the composition for a console `console_cols` wide, with
/// `squares_per_row` squares in a row and `squares_per_col` in a column.
pub fn compute_layout(console_cols: i32, squares_per_row: i32, squares_per_col: i32) -> (layout:
    Layout)
    requires
        console_cols > 0,
        squares_per_row > 0,
        squares_per_col > 0,
    ensures
        layout@ == request(console_cols, squares_per_row, squares_per_col),
        layout@.valid(),
{
    let needed_width: u32 = 2 * (console_cols as u32);
    let padding: u32 = if needed_width > 4 { 2 } else { 0 };
    let side_numerator: u32 = needed_width - 2 * padding;
    assert(side_numerator as u64 * squares_per_col as u64 <= 0xffff_ffff * 0x7fff_ffff)
        by (nonlinear_arith)
        requires
            0 <= side_numerator <= 0xffff_ffff,
            0 <= squares_per_col <= 0x7fff_ffff,
    ;
    let rows: u64 = rounded_quotient(
        side_numerator as u64 * squares_per_col as u64,
        squares_per_row as u64,
    );
    let needed_height: u64 = rows + 2 * padding as u64;
    Layout {
        console_cols,
        squares_per_row,
        squares_per_col,
        needed_width,
        needed_height,
        padding,
        side_numerator,
    }
}

impl Layout {
    #[verifier::type_invariant]
    spec fn inv(self) -> bool {
        &&& self@.valid()
        &&& self.needed_width == self@.needed_width()
        &&& self.needed_height == self@.needed_height()
        &&& self.padding == self@.padding()
        &&& self.side_numerator == self@.side_numerator()
    }

    /// The width of the canvas that the composition needs, in pixels.
    pub fn needed_width(&self) -> (w: u32)
        ensures
            w == self@.needed_width(),
            self@.valid(),
    {
        proof {
            use_type_invariant(self);
        }
        self.needed_width
    }

    /// The height of the canvas that the composition needs, in pixels. It
    /// is a wider number than the width because it can be more than any
    /// canvas has rows.
    pub fn needed_height(&self) -> (h: u64)
        ensures
            h == self@.needed_height(),
            self@.valid(),
    {
        proof {
            use_type_invariant(self);
        }
        self.needed_height
    }

    /// The empty border around the grid, in pixels.
    pub fn padding(&self) -> (p: u32)
        ensures
            p == self@.padding(),
            self@.valid(),
    {
        proof {
            use_type_invariant(self);
        }
        self.padding
    }

    /// The side of a square is this number divided by `squares_per_row`.
    pub fn side_numerator(&self) -> (n: u32)
        ensures
            n == self@.side_numerator(),
            self@.valid(),
    {
        proof {
            use_type_invariant(self);
        }
        self.side_numerator
    }

    /// The width of the console in columns.
    pub fn console_cols(&self) -> (n: i32)
        ensures
            n == self@.console_cols,
            self@.valid(),
    {
        proof {
            use_type_invariant(self);
        }
        self.console_cols
    }

    /// The number of squares in a row of the grid.
    pub fn squares_per_row(&self) -> (n: i32)
        ensures
            n == self@.squares_per_row,
            self@.valid(),
    {
        proof {
            use_type_invariant(self);
        }
        self.squares_per_row
    }

    /// The number of squares in a column of the grid.
    pub fn squares_per_col(&self) -> (n: i32)
        ensures
            n == self@.squares_per_col,
            self@.valid(),
    {
        proof {
            use_type_invariant(self);
        }
        self.squares_per_col
    }

    /// The middle of square number `k` of a row or of a column.
    fn center(&self, k: i32) -> (c: i64)
        requires
            0 <= k < 0x7fff_ffff,
        ensures
            c == self@.center(k as int),
    {
        proof {
            use_type_invariant(self);
        }
        let steps: u64 = 2 * k as u64 + 1;
        assert(steps * self.side_numerator as u64 <= 0xffff_fffd * 0xffff_fffe) by (nonlinear_arith)
            requires
                0 <= steps <= 0xffff_fffd,
                0 <= self.side_numerator <= 0xffff_fffe,
        ;
        let middle: u64 = rounded_quotient(
            steps * self.side_numerator as u64,
            2 * self.squares_per_row as u64,
        );
        (middle + self.padding as u64) as i64
    }

    /// The places of the grid in the order in which their squares are drawn:
    /// row after row from the top, each row from the left.
    pub fn cells(&self) -> (all: Vec<Cell>)
        ensures
            self@.valid(),
            all@.len() == self@.cell_count(),
            forall|n: int| 0 <= n < all@.len() ==> all@[n] == self@.cell(n),
    {
        proof {
            use_type_invariant(self);
        }
        let per_row: i32 = self.squares_per_row;
        let per_col: i32 = self.squares_per_col;
        let mut all: Vec<Cell> = Vec::new();
        let mut row: i32 = 0;
        while row < per_col
            invariant
                self@.valid(),
                per_row == self@.squares_per_row,
                per_col == self@.squares_per_col,
                0 <= row <= per_col,
                all@.len() == row * per_row,
                forall|n: int| 0 <= n < all@.len() ==> all@[n] == self@.cell(n),
            decreases per_col - row,
        {
            let y: i64 = self.center(row);
            let mut col: i32 = 0;
            while col < per_row
                invariant
                    self@.valid(),
                    per_row == self@.squares_per_row,
                    per_col == self@.squares_per_col,
                    0 <= row < per_col,
                    0 <= col <= per_row,
                    y == self@.center(row as int),
                    all@.len() == row * per_row + col,
                    forall|n: int| 0 <= n < all@.len() ==> all@[n] == self@.cell(n),
                decreases per_row - col,
            {
                let x: i64 = self.center(col);
                proof {
                    lemma_fundamental_div_mod_converse(
                        row * per_row + col,
                        per_row as int,
                        row as int,
                        col as int,
                    );
                }
                all.push(Cell { col, row, center_x: x, center_y: y });
                col += 1;
            }
            assert((row + 1) * per_row == row * per_row + per_row) by (nonlinear_arith);
            row += 1;
        }
        assert(all@.len() == per_row * per_col) by (nonlinear_arith)
            requires
                all@.len() == row * per_row,
                row == per_col,
        ;
        all
    }
}

impl Canvas {
    /// Draw Georg Nees's "Schotter": the squares of a composition, in the
    /// order given, on a canvas that is large enough for its layout.
    ///
    /// "Schotter" is a tiled arrangement of squares that grow increasingly
    /// chaotic as you advance down the image. A canvas that is narrower or
    /// shorter than the layout needs is refused before anything is drawn.
    /// Where the layout needs more rows than any canvas has, the error names
    /// the largest number that its field holds.
    pub fn draw_schotter(
        &mut self,
        console_cols: i32,
        squares_per_row: i32,
        squares_per_col: i32,
        squares: &Vec<[Point; 4]>,
    ) -> (r: Result<(), CanvasError>)
        requires
            console_cols > 0,
            squares_per_row > 0,
            squares_per_col > 0,
        ensures
            r is Ok <==> request(console_cols, squares_per_row, squares_per_col).fits(old(self)@),
            r is Ok ==> final(self)@ == old(self)@.squares(squares@),
            r is Err ==> final(self)@ == old(self)@,
            r matches Err(e) ==> e == request(
                console_cols,
                squares_per_row,
                squares_per_col,
            ).too_small(old(self)@),
    {
        let layout = compute_layout(console_cols, squares_per_row, squares_per_col);
        let needed_width: u32 = layout.needed_width();
        let needed_height: u64 = layout.needed_height();
        let actual_width: u32 = self.width();
        let actual_height: u32 = self.height();
        if needed_width > actual_width || needed_height > actual_height as u64 {
            return Err(
                CanvasError::CanvasTooSmall {
                    needed_width,
                    actual_width,
                    needed_height: reported(needed_height),
                    actual_height,
                },
            );
        }
        let ghost before = self@;
        let mut k: usize = 0;
        while k < squares.len()
            invariant
                k <= squares@.len(),
                self@ == before.squares(squares@.take(k as int)),
            decreases squares@.len() - k,
        {
            proof {
                let next = squares@.take(k + 1);
                assert(next.drop_last() =~= squares@.take(k as int));
                assert(next.last() == squares@[k as int]);
            }
            self.draw_square(&squares[k]);
            k += 1;
        }
        assert(squares@.take(k as int) =~= squares@);
        Ok(())
    }

    /// Create a Canvas of exactly the dimensions that the layout needs, draw
    /// the squares of the composition onto it and render it as Braille text.
    /// A composition whose canvas would have more rows than a canvas can
    /// have, or more pixels than a buffer can hold, is refused.
    pub fn create_and_render_schotter(
        console_cols: i32,
        squares_per_row: i32,
        squares_per_col: i32,
        squares: &Vec<[Point; 4]>,
    ) -> (r: Result<String, CanvasError>)
        requires
            console_cols > 0,
            squares_per_row > 0,
            squares_per_col > 0,
        ensures
            r is Ok <==> request(console_cols, squares_per_row, squares_per_col).can_be_made(),
            r matches Ok(text) ==> text@ == request(
                console_cols,
                squares_per_row,
                squares_per_col,
            ).blank_canvas().squares(squares@).braille_text(),
            r matches Err(e) ==> e == request(
                console_cols,
                squares_per_row,
                squares_per_col,
            ).too_large(),
    {
        let layout = compute_layout(console_cols, squares_per_row, squares_per_col);
        let width: u32 = layout.needed_width();
        let height: u64 = layout.needed_height();
        let limit: u64 = isize::MAX as u64;
        let widest: u64 = width as u64 * u32::MAX as u64;
        let most: u64 = if widest <= limit { widest } else { limit };
        let needed: usize = match (width as u64).checked_mul(height) {
            Some(pixels) if pixels <= usize::MAX as u64 => pixels as usize,
            _ => usize::MAX,
        };
        proof {
            if height <= u32::MAX {
                assert(width * height <= width * u32::MAX) by (nonlinear_arith)
                    requires
                        0 <= width,
                        0 <= height <= u32::MAX,
                ;
            }
        }
        if height > u32::MAX as u64 || needed > limit as usize {
            return Err(CanvasError::PixelBufferTooSmall { needed, actual: most as usize });
        }
        let mut canvas = match Canvas::create(width, height as u32) {
            Ok(canvas) => canvas,
            Err(e) => {
                return Err(e);
            },
        };
        match canvas.draw_schotter(console_cols, squares_per_row, squares_per_col, squares) {
            Ok(()) => Ok(canvas.render()),
            Err(e) => Err(e),
        }
    }
}

} // verus!
