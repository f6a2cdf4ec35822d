//! What can go wrong when a canvas is made, addressed or composed on.

use vstd::prelude::*;

verus! {

/// An error of the canvas.
#[derive(Debug, Copy, Clone, PartialEq, Eq, Structural)]
pub enum CanvasError {
    /// The buffer does not have enough bytes to be the backing memory of a
    /// canvas of the dimensions asked for.
    PixelBufferTooSmall { needed: usize, actual: usize },
    /// A composition needs a canvas of certain dimensions, and the canvas
    /// given is smaller along at least one axis.
    CanvasTooSmall { needed_width: u32, actual_width: u32, needed_height: u32, actual_height: u32 },
    /// A strict access named a coordinate outside the canvas.
    OutOfBounds { x: i32, y: i32, width: u32, height: u32 },
}

} // verus!
