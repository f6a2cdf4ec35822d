//! Squares given by their four corners, drawn as closed outlines.

use vstd::prelude::*;
use crate::canvas::Canvas;
use crate::line::{lemma_line_has_both_ends, lemma_line_keeps_shape, lemma_line_pixel, on_line};
use crate::raster::Raster;

verus! {

/// The byte of a pixel that is off.
pub const OFF: u8 = 0;

/// The byte of a pixel that is on.
pub const ON: u8 = 1;

/// A point of the plane with whole coordinates.
#[derive(Debug, Copy, Clone, PartialEq, Eq, Structural)]
pub struct Point {
    pub x: i32,
    pub y: i32,
}

/// The segment from `a` to `b` has the point `(px, py)`.
pub open spec fn on_edge(a: Point, b: Point, px: int, py: int) -> bool {
    on_line(a.x as int, a.y as int, b.x as int, b.y as int, px, py)
}

/// `(px, py)` is on the outline through the four corners: on one of the
/// segments that join each corner to the next and the last to the first.
pub open spec fn on_outline(corners: Seq<Point>, px: int, py: int) -> bool {
    ||| on_edge(corners[0], corners[1], px, py)
    ||| on_edge(corners[1], corners[2], px, py)
    ||| on_edge(corners[2], corners[3], px, py)
    ||| on_edge(corners[3], corners[0], px, py)
}

/// `(px, py)` is on the outline of one of the squares.
pub open spec fn on_some_outline(all: Seq<[Point; 4]>, px: int, py: int) -> bool {
    exists|k: int| 0 <= k < all.len() && on_outline(#[trigger] all[k]@, px, py)
}

impl Raster {
    /// The grid with the segment from `a` to `b` switched on.
    pub open spec fn edge(self, a: Point, b: Point) -> Raster {
        self.line(a.x as int, a.y as int, b.x as int, b.y as int, ON)
    }

    /// The grid with the outline through the four corners switched on: each
    /// corner is joined to the next, and the last to the first.
    pub open spec fn square(self, corners: Seq<Point>) -> Raster {
        self.edge(corners[0], corners[1]).edge(corners[1], corners[2]).edge(
            corners[2],
            corners[3],
        ).edge(corners[3], corners[0])
    }

    /// The grid with the outlines of all the given squares switched on, the
    /// first of them first.
    pub open spec fn squares(self, all: Seq<[Point; 4]>) -> Raster
        decreases all.len(),
    {
        if all.len() == 0 {
            self
        } else {
            self.squares(all.drop_last()).square(all.last()@)
        }
    }
}

/// Drawing a segment between two points keeps the grid's shape, and a pixel
/// of the grid is on afterwards where it lies on the segment and has the byte
/// that it had where it does not.
pub proof fn lemma_edge_pixel(r: Raster, a: Point, b: Point, px: int, py: int)
    requires
        r.wf(),
    ensures
        r.edge(a, b).wf(),
        r.edge(a, b).width == r.width,
        r.edge(a, b).height == r.height,
        r.edge(a, b).cells.len() == r.cells.len(),
        r.in_bounds(px, py) ==> r.edge(a, b).pixel(px, py) == (if on_edge(a, b, px, py) {
            ON
        } else {
            r.pixel(px, py)
        }),
{
    lemma_line_keeps_shape(r, a.x as int, a.y as int, b.x as int, b.y as int, ON);
    if r.in_bounds(px, py) {
        lemma_line_pixel(r, a.x as int, a.y as int, b.x as int, b.y as int, ON, px, py);
    }
}

/// Drawing an outline keeps the grid's shape.
pub proof fn lemma_square_keeps_shape(r: Raster, corners: Seq<Point>)
    requires
        r.wf(),
    ensures
        r.square(corners).wf(),
        r.square(corners).width == r.width,
        r.square(corners).height == r.height,
        r.square(corners).cells.len() == r.cells.len(),
{
    let r1 = r.edge(corners[0], corners[1]);
    let r2 = r1.edge(corners[1], corners[2]);
    let r3 = r2.edge(corners[2], corners[3]);
    lemma_edge_pixel(r, corners[0], corners[1], 0, 0);
    lemma_edge_pixel(r1, corners[1], corners[2], 0, 0);
    lemma_edge_pixel(r2, corners[2], corners[3], 0, 0);
    lemma_edge_pixel(r3, corners[3], corners[0], 0, 0);
}

/// After an outline is drawn, a pixel of the grid is on where it lies on the
/// outline, and has the byte that it had where it does not.
pub proof fn lemma_square_pixel(r: Raster, corners: Seq<Point>, px: int, py: int)
    requires
        r.wf(),
        r.in_bounds(px, py),
    ensures
        r.square(corners).pixel(px, py) == (if on_outline(corners, px, py) {
            ON
        } else {
            r.pixel(px, py)
        }),
{
    let r1 = r.edge(corners[0], corners[1]);
    let r2 = r1.edge(corners[1], corners[2]);
    let r3 = r2.edge(corners[2], corners[3]);
    lemma_edge_pixel(r, corners[0], corners[1], px, py);
    lemma_edge_pixel(r1, corners[1], corners[2], px, py);
    lemma_edge_pixel(r2, corners[2], corners[3], px, py);
    lemma_edge_pixel(r3, corners[3], corners[0], px, py);
}

/// After the outlines of several squares are drawn, the grid has kept its
/// shape, and a pixel of it is on where it lies on one of the outlines and has
/// the byte that it had where it lies on none: the order of the squares does
/// not show.
pub proof fn lemma_squares_pixel(r: Raster, all: Seq<[Point; 4]>, px: int, py: int)
    requires
        r.wf(),
    ensures
        r.squares(all).wf(),
        r.squares(all).width == r.width,
        r.squares(all).height == r.height,
        r.squares(all).cells.len() == r.cells.len(),
        r.in_bounds(px, py) ==> r.squares(all).pixel(px, py) == (if on_some_outline(all, px, py) {
            ON
        } else {
            r.pixel(px, py)
        }),
    decreases all.len(),
{
    if all.len() > 0 {
        let rest = all.drop_last();
        let last = all.last()@;
        lemma_squares_pixel(r, rest, px, py);
        lemma_square_keeps_shape(r.squares(rest), last);
        if r.in_bounds(px, py) {
            lemma_square_pixel(r.squares(rest), last, px, py);
            if on_some_outline(rest, px, py) {
                let k = choose|k: int|
                    0 <= k < rest.len() && on_outline(#[trigger] rest[k]@, px, py);
                assert(all[k] == rest[k]);
            }
            if on_outline(last, px, py) {
                assert(all[all.len() - 1]@ == last);
            }
            if on_some_outline(all, px, py) && !on_outline(last, px, py) {
                let k = choose|k: int| 0 <= k < all.len() && on_outline(#[trigger] all[k]@, px, py);
                assert(rest[k] == all[k]);
            }
        }
    }
}

/// The outline is closed: every corner lies on it, as the end of one segment
/// and the start of the next, so every corner inside the grid is on after the
/// outline is drawn.
pub proof fn lemma_square_is_closed(r: Raster, corners: Seq<Point>, k: int)
    requires
        r.wf(),
        0 <= k < 4,
    ensures
        on_edge(corners[k], corners[(k + 1) % 4], corners[k].x as int, corners[k].y as int),
        on_edge(corners[(k + 3) % 4], corners[k], corners[k].x as int, corners[k].y as int),
        on_outline(corners, corners[k].x as int, corners[k].y as int),
        r.in_bounds(corners[k].x as int, corners[k].y as int) ==> r.square(corners).pixel(
            corners[k].x as int,
            corners[k].y as int,
        ) == ON,
{
    let next = corners[(k + 1) % 4];
    let prev = corners[(k + 3) % 4];
    let c = corners[k];
    lemma_line_has_both_ends(c.x as int, c.y as int, next.x as int, next.y as int);
    lemma_line_has_both_ends(prev.x as int, prev.y as int, c.x as int, c.y as int);
    if r.in_bounds(c.x as int, c.y as int) {
        lemma_square_pixel(r, corners, c.x as int, c.y as int);
    }
}

impl Canvas {
    /// Draw the outline of the square with the given corners: each corner is
    /// joined to the next by a line, and the last to the first.
    pub fn draw_square(&mut self, corners: &[Point; 4])
        ensures
            final(self)@ == old(self)@.square(corners@),
    {
        self.draw_line(corners[0].x, corners[0].y, corners[1].x, corners[1].y, ON);
        self.draw_line(corners[1].x, corners[1].y, corners[2].x, corners[2].y, ON);
        self.draw_line(corners[2].x, corners[2].y, corners[3].x, corners[3].y, ON);
        self.draw_line(corners[3].x, corners[3].y, corners[0].x, corners[0].y, ON);
    }
}

} // verus!
