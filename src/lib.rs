//! Escape-time rendering of the Mandelbrot set into an RGBA8 frame.
//!
//! The library holds the integer side of the renderer: the escape-time
//! iteration (generic over the arithmetic of the orbit), the red-to-yellow
//! colour gradient, and the walk over every pixel of a frame.
pub mod escape;
pub mod palette;
pub mod frame;

pub use escape::{escape_time, MAX_ITER};
pub use palette::color_of;
pub use frame::render;


