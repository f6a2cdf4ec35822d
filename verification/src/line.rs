//! Which points a rasterised line segment consists of.
//!
//! A segment from `(x1, y1)` to `(x2, y2)` spans `dx` columns and `dy` rows.
//! Along the longer of the two it has one point for every step, and the
//! point's other coordinate is the one nearest to the ideal line; where the
//! ideal line passes exactly between two of them, it is the one nearer to the
//! start.

use vstd::prelude::*;
use crate::raster::{
    Raster, lemma_offset_in_storage, lemma_offset_of_pixel, lemma_pixel_of_offset,
};

verus! {

/// The distance between two coordinates.
pub open spec fn span(a: int, b: int) -> int {
    if a < b {
        b - a
    } else {
        a - b
    }
}

/// How many steps from `a` in the direction of `b` lead to `p`. Where `a` and
/// `b` are equal the direction is downwards.
pub open spec fn steps_along(a: int, b: int, p: int) -> int {
    if a < b {
        p - a
    } else {
        a - p
    }
}

/// The point `i` steps along a span of `dx` and `j` steps along a span of
/// `dy` is no further than half a step from the ideal line, measured along
/// the shorter span; at exactly half a step it is on the side of the start.
pub open spec fn near_ideal(dx: int, dy: int, i: int, j: int) -> bool {
    let twice = 2 * (i * dy - j * dx);
    if dx >= dy {
        dx == 0 || (-dx < twice && twice <= dx)
    } else {
        -dy <= twice && twice < dy
    }
}

/// `(px, py)` is a point of the segment from `(x1, y1)` to `(x2, y2)`.
pub open spec fn on_line(x1: int, y1: int, x2: int, y2: int, px: int, py: int) -> bool {
    let dx = span(x1, x2);
    let dy = span(y1, y2);
    let i = steps_along(x1, x2, px);
    let j = steps_along(y1, y2, py);
    &&& 0 <= i <= dx
    &&& 0 <= j <= dy
    &&& near_ideal(dx, dy, i, j)
}

/// The place of a point in the order in which the segment is drawn: its step
/// along the longer span.
pub open spec fn rank(x1: int, y1: int, x2: int, y2: int, px: int, py: int) -> int {
    if span(x1, x2) >= span(y1, y2) {
        steps_along(x1, x2, px)
    } else {
        steps_along(y1, y2, py)
    }
}

/// The number of points of the segment.
pub open spec fn line_len(x1: int, y1: int, x2: int, y2: int) -> int {
    if span(x1, x2) >= span(y1, y2) {
        span(x1, x2) + 1
    } else {
        span(y1, y2) + 1
    }
}

/// Both ends of a segment are points of it.
pub proof fn lemma_line_has_both_ends(x1: int, y1: int, x2: int, y2: int)
    ensures
        on_line(x1, y1, x2, y2, x1, y1),
        on_line(x1, y1, x2, y2, x2, y2),
        rank(x1, y1, x2, y2, x1, y1) == 0,
        rank(x1, y1, x2, y2, x2, y2) == line_len(x1, y1, x2, y2) - 1,
{
    let dx = span(x1, x2);
    let dy = span(y1, y2);
    assert(0 * dy - 0 * dx == 0);
    assert(dx * dy - dy * dx == 0) by (nonlinear_arith);
}

/// A segment has at most one point at each place of its order.
pub proof fn lemma_line_point_unique(
    x1: int,
    y1: int,
    x2: int,
    y2: int,
    px: int,
    py: int,
    qx: int,
    qy: int,
)
    requires
        on_line(x1, y1, x2, y2, px, py),
        on_line(x1, y1, x2, y2, qx, qy),
        rank(x1, y1, x2, y2, px, py) == rank(x1, y1, x2, y2, qx, qy),
    ensures
        px == qx,
        py == qy,
{
    let dx = span(x1, x2);
    let dy = span(y1, y2);
    let ip = steps_along(x1, x2, px);
    let jp = steps_along(y1, y2, py);
    let iq = steps_along(x1, x2, qx);
    let jq = steps_along(y1, y2, qy);
    if dx >= dy {
        assert(ip == iq);
        if dx > 0 {
            assert(jp == jq) by (nonlinear_arith)
                requires
                    dx > 0,
                    -dx < 2 * (ip * dy - jp * dx) <= dx,
                    -dx < 2 * (ip * dy - jq * dx) <= dx,
            ;
        }
    } else {
        assert(jp == jq);
        assert(ip == iq) by (nonlinear_arith)
            requires
                dy > 0,
                -dy <= 2 * (ip * dy - jp * dx) < dy,
                -dy <= 2 * (iq * dy - jp * dx) < dy,
        ;
    }
}

/// Every point of a segment has a place from 0 to the segment's length.
pub proof fn lemma_rank_in_range(x1: int, y1: int, x2: int, y2: int, px: int, py: int)
    requires
        on_line(x1, y1, x2, y2, px, py),
    ensures
        0 <= rank(x1, y1, x2, y2, px, py) < line_len(x1, y1, x2, y2),
{
}

/// A segment whose ends coincide is that one point.
pub proof fn lemma_line_of_one_point(x: int, y: int, px: int, py: int)
    ensures
        on_line(x, y, x, y, px, py) <==> (px == x && py == y),
{
    assert(0 * 0 - 0 * 0 == 0);
}

/// A segment within one row is the run of pixels between its ends.
pub proof fn lemma_line_in_a_row(x1: int, x2: int, y: int, px: int, py: int)
    ensures
        on_line(x1, y, x2, y, px, py) <==> (py == y && (x1 <= px <= x2 || x2 <= px <= x1)),
{
    let dx = span(x1, x2);
    let i = steps_along(x1, x2, px);
    let j = steps_along(y, y, py);
    assert(i * 0 == 0);
    if j == 0 {
        assert(j * dx == 0);
    }
}

/// A segment within one column is the run of pixels between its ends.
pub proof fn lemma_line_in_a_column(x: int, y1: int, y2: int, px: int, py: int)
    ensures
        on_line(x, y1, x, y2, px, py) <==> (px == x && (y1 <= py <= y2 || y2 <= py <= y1)),
{
    let dy = span(y1, y2);
    let i = steps_along(x, x, px);
    let j = steps_along(y1, y2, py);
    assert(j * 0 == 0);
    if i == 0 {
        assert(i * dy == 0);
    }
}

/// The decision value that the drawing loop keeps for the point `i` steps
/// along `dx` and `j` steps along `dy`.
pub open spec fn line_error(dx: int, dy: int, i: int, j: int) -> int {
    dx - dy - (i * dy - j * dx)
}

/// One step of the drawing loop: from a point of the segment that is not its
/// end, the loop's two tests lead to the segment's next point.
pub proof fn lemma_line_step(dx: int, dy: int, i: int, j: int)
    requires
        0 <= i <= dx,
        0 <= j <= dy,
        i != dx || j != dy,
        near_ideal(dx, dy, i, j),
    ensures
        ({
            let twice = 2 * line_error(dx, dy, i, j);
            let i2 = if twice > -dy { i + 1 } else { i };
            let j2 = if twice < dx { j + 1 } else { j };
            &&& i2 <= dx
            &&& j2 <= dy
            &&& near_ideal(dx, dy, i2, j2)
            &&& if dx >= dy { i2 == i + 1 } else { j2 == j + 1 }
            &&& line_error(dx, dy, i2, j2) == line_error(dx, dy, i, j)
                    - (if twice > -dy { dy } else { 0 })
                    + (if twice < dx { dx } else { 0 })
        }),
{
    let d = i * dy - j * dx;
    let twice = 2 * line_error(dx, dy, i, j);
    let i2 = if twice > -dy { i + 1 } else { i };
    let j2 = if twice < dx { j + 1 } else { j };
    assert((i + 1) * dy == i * dy + dy) by (nonlinear_arith);
    assert((j + 1) * dx == j * dx + dx) by (nonlinear_arith);
    if dx >= dy {
        if dx == dy {
            // On the diagonal the two steps go together.
            assert(i == j) by (nonlinear_arith)
                requires
                    dx > 0,
                    dx == dy,
                    -dx < 2 * (i * dy - j * dx) <= dx,
            ;
            assert(d == 0);
        }
        if i == dx {
            assert(d >= dx) by (nonlinear_arith)
                requires
                    d == i * dy - j * dx,
                    i == dx,
                    j < dy,
                    dx >= 0,
            ;
        }
        if j == dy {
            assert(d <= -dy) by (nonlinear_arith)
                requires
                    d == i * dy - j * dx,
                    j == dy,
                    i < dx,
                    dy >= 0,
            ;
        }
    } else {
        if j == dy {
            assert(d <= -dy) by (nonlinear_arith)
                requires
                    d == i * dy - j * dx,
                    j == dy,
                    i < dx,
                    dy >= 0,
            ;
        }
        if i == dx {
            assert(d >= dx) by (nonlinear_arith)
                requires
                    d == i * dy - j * dx,
                    i == dx,
                    j < dy,
                    dx >= 0,
            ;
        }
    }
}

/// A segment is unbroken: it has a point at every place of its order, and
/// each point after the first is a neighbour of the one before it, one step
/// further along the longer span and at most one along the other.
pub proof fn lemma_line_is_unbroken(x1: int, y1: int, x2: int, y2: int, place: int) -> (p: (
    int,
    int,
))
    requires
        0 <= place < line_len(x1, y1, x2, y2),
    ensures
        on_line(x1, y1, x2, y2, p.0, p.1),
        rank(x1, y1, x2, y2, p.0, p.1) == place,
        place > 0 ==> exists|qx: int, qy: int|
            {
                &&& on_line(x1, y1, x2, y2, qx, qy)
                &&& #[trigger] rank(x1, y1, x2, y2, qx, qy) == place - 1
                &&& -1 <= p.0 - qx <= 1
                &&& -1 <= p.1 - qy <= 1
            },
    decreases place,
{
    if place == 0 {
        lemma_line_has_both_ends(x1, y1, x2, y2);
        (x1, y1)
    } else {
        let q = lemma_line_is_unbroken(x1, y1, x2, y2, place - 1);
        let dx = span(x1, x2);
        let dy = span(y1, y2);
        let i = steps_along(x1, x2, q.0);
        let j = steps_along(y1, y2, q.1);
        lemma_line_step(dx, dy, i, j);
        let twice = 2 * line_error(dx, dy, i, j);
        let i2 = if twice > -dy { i + 1 } else { i };
        let j2 = if twice < dx { j + 1 } else { j };
        let p = (
            if x1 < x2 { x1 + i2 } else { x1 - i2 },
            if y1 < y2 { y1 + j2 } else { y1 - j2 },
        );
        assert(steps_along(x1, x2, p.0) == i2);
        assert(steps_along(y1, y2, p.1) == j2);
        assert(rank(x1, y1, x2, y2, q.0, q.1) == place - 1);
        p
    }
}

impl Raster {
    /// The byte stored at `idx` belongs to a pixel of the segment from
    /// `(x1, y1)` to `(x2, y2)`.
    pub open spec fn on_segment(self, x1: int, y1: int, x2: int, y2: int, idx: int) -> bool {
        &&& 0 <= idx < self.width * self.height
        &&& on_line(x1, y1, x2, y2, self.column_of(idx), self.row_of(idx))
    }

    /// The grid with the segment from `(x1, y1)` to `(x2, y2)` drawn in
    /// `color`: the segment's pixels that lie inside the grid take the colour,
    /// and nothing else changes.
    pub open spec fn line(self, x1: int, y1: int, x2: int, y2: int, color: u8) -> Raster {
        Raster {
            cells: Seq::new(
                self.cells.len(),
                |idx: int|
                    if self.on_segment(x1, y1, x2, y2, idx) {
                        color
                    } else {
                        self.cells[idx]
                    },
            ),
            ..self
        }
    }

    /// The grid with the segment's first `count` points drawn.
    pub open spec fn line_start(
        self,
        x1: int,
        y1: int,
        x2: int,
        y2: int,
        color: u8,
        count: int,
    ) -> Raster {
        Raster {
            cells: Seq::new(
                self.cells.len(),
                |idx: int|
                    if self.on_segment(x1, y1, x2, y2, idx) && rank(
                        x1,
                        y1,
                        x2,
                        y2,
                        self.column_of(idx),
                        self.row_of(idx),
                    ) < count {
                        color
                    } else {
                        self.cells[idx]
                    },
            ),
            ..self
        }
    }
}

/// Drawing a segment keeps the grid well formed.
pub proof fn lemma_line_keeps_shape(r: Raster, x1: int, y1: int, x2: int, y2: int, color: u8)
    requires
        r.wf(),
    ensures
        r.line(x1, y1, x2, y2, color).wf(),
        r.line(x1, y1, x2, y2, color).width == r.width,
        r.line(x1, y1, x2, y2, color).height == r.height,
        r.line(x1, y1, x2, y2, color).cells.len() == r.cells.len(),
{
}

/// After a segment is drawn, a pixel of the grid has the colour where it is a
/// point of the segment, and the byte that it had where it is not.
pub proof fn lemma_line_pixel(
    r: Raster,
    x1: int,
    y1: int,
    x2: int,
    y2: int,
    color: u8,
    px: int,
    py: int,
)
    requires
        r.wf(),
        r.in_bounds(px, py),
    ensures
        r.line(x1, y1, x2, y2, color).pixel(px, py) == (if on_line(x1, y1, x2, y2, px, py) {
            color
        } else {
            r.pixel(px, py)
        }),
{
    lemma_offset_in_storage(r, px, py);
    lemma_pixel_of_offset(r, px, py);
}

/// Before its first point is drawn, a segment has changed nothing.
pub proof fn lemma_line_start_of_none(r: Raster, x1: int, y1: int, x2: int, y2: int, color: u8)
    ensures
        r.line_start(x1, y1, x2, y2, color, 0) == r,
{
    assert(r.line_start(x1, y1, x2, y2, color, 0).cells =~= r.cells);
}

/// Drawing the point at place `count` after the first `count` points gives
/// the first `count + 1` points.
pub proof fn lemma_line_start_grows(
    r: Raster,
    x1: int,
    y1: int,
    x2: int,
    y2: int,
    color: u8,
    count: int,
    x: int,
    y: int,
)
    requires
        r.wf(),
        on_line(x1, y1, x2, y2, x, y),
        rank(x1, y1, x2, y2, x, y) == count,
    ensures
        r.line_start(x1, y1, x2, y2, color, count).set_pixel(x, y, color) == r.line_start(
            x1,
            y1,
            x2,
            y2,
            color,
            count + 1,
        ),
{
    let before = r.line_start(x1, y1, x2, y2, color, count);
    let after = r.line_start(x1, y1, x2, y2, color, count + 1);
    let drawn = before.set_pixel(x, y, color);
    if r.in_bounds(x, y) {
        lemma_offset_in_storage(r, x, y);
        lemma_pixel_of_offset(r, x, y);
    }
    assert forall|idx: int| 0 <= idx < r.cells.len() implies drawn.cells[idx]
        == after.cells[idx] by {
        if r.on_segment(x1, y1, x2, y2, idx) && rank(
            x1,
            y1,
            x2,
            y2,
            r.column_of(idx),
            r.row_of(idx),
        ) == count {
            lemma_offset_of_pixel(r, idx);
            lemma_line_point_unique(x1, y1, x2, y2, x, y, r.column_of(idx), r.row_of(idx));
        }
    }
    assert(drawn.cells =~= after.cells);
}

/// Once all its points are drawn, the segment is drawn.
pub proof fn lemma_line_start_of_all(r: Raster, x1: int, y1: int, x2: int, y2: int, color: u8)
    ensures
        r.line_start(x1, y1, x2, y2, color, line_len(x1, y1, x2, y2)) == r.line(
            x1,
            y1,
            x2,
            y2,
            color,
        ),
{
    assert(r.line_start(x1, y1, x2, y2, color, line_len(x1, y1, x2, y2)).cells =~= r.line(
        x1,
        y1,
        x2,
        y2,
        color,
    ).cells);
}

/// A segment from a point to itself draws that one pixel.
pub proof fn lemma_line_to_itself(r: Raster, x: int, y: int, color: u8)
    requires
        r.wf(),
    ensures
        r.line(x, y, x, y, color) == r.set_pixel(x, y, color),
{
    let drawn = r.line(x, y, x, y, color);
    let set = r.set_pixel(x, y, color);
    if r.in_bounds(x, y) {
        lemma_offset_in_storage(r, x, y);
        lemma_pixel_of_offset(r, x, y);
    }
    assert forall|idx: int| 0 <= idx < r.cells.len() implies drawn.cells[idx] == set.cells[idx] by {
        lemma_line_of_one_point(x, y, r.column_of(idx), r.row_of(idx));
        if r.on_segment(x, y, x, y, idx) {
            lemma_offset_of_pixel(r, idx);
        }
    }
    assert(drawn.cells =~= set.cells);
}

} // verus!
