//! A small monochrome raster canvas that renders to Braille text.
//!
//! A [`Canvas`] is a grid of pixels of fixed dimensions. Points, lines and
//! the outlines of squares are drawn into it, and the finished grid is
//! rendered as text, one Braille character for every tile of 2 by 4 pixels.
//! The canvas is made for Georg Nees's "Schotter", a grid of squares that
//! fall into disorder from row to row.
//!
//! Every function states what it does over [`raster::Raster`], the
//! mathematical model of a canvas, and the modules hold the facts that follow
//! from those statements:
//!
//! - [`raster`]: the model, reading and writing single pixels;
//! - [`canvas`]: the canvas itself and the drawing of lines;
//! - [`line`]: which points a line consists of;
//! - [`square`]: outlines through four corners;
//! - [`schotter`]: the layout of the composition and its drawing;
//! - [`glyph`] and [`render`]: Braille patterns and the canvas as text;
//! - [`error`]: what can go wrong.

pub mod canvas;
pub mod error;
pub mod glyph;
pub mod line;
pub mod raster;
pub mod render;
pub mod schotter;
pub mod square;

pub use canvas::Canvas;
pub use error::CanvasError;
pub use glyph::translate_pixels_group;
pub use schotter::{compute_layout, Cell, Layout};
pub use square::Point;
