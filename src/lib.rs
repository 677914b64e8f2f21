//! Off-screen canvases that keep track of which pixels were drawn, so that
//! only those pixels reach the display they are finally drawn on.
//!
//! - [`Canvas`] and [`CanvasAt`] hold their pixels on the heap.
//! - [`CCanvas`] and [`CCanvasAt`] have their size fixed by const generics
//!   and need no allocation.
//!
//! A `Canvas` is drawn on with origin `(0, 0)`; once placed it becomes a
//! `CanvasAt`, whose pixels are addressed in the coordinates of the display.
pub mod canvas;
pub mod consts;
pub mod geometry;
pub mod raster;
pub mod slots;

pub use canvas::{Canvas, CanvasAt};
pub use consts::{CCanvas, CCanvasAt};
pub use geometry::{center_offset, Point, Rectangle, Size};
pub use raster::{Pixel, Raster};
pub use slots::{index_to_point, point_to_index};
