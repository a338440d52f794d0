//! Renders raster images as grids of Unicode Braille-pattern glyphs.
//!
//! A picture is scaled to a target grid, cut into cells two pixels wide and
//! four pixels tall, and every cell becomes one glyph of the Braille Patterns
//! block: either a dot pattern obtained by thresholding brightness, or a
//! fully dotted glyph tinted with the cell's average colour.

pub mod bitmap;
pub mod color;
pub mod geometry;
pub mod mono;
pub mod utf8;

pub use crate::bitmap::Bitmap;
pub use crate::color::print_color_dot;
pub use crate::geometry::RenderError;
pub use crate::mono::draw;
pub use crate::utf8::{from_utf32, utf32_to_utf8};
