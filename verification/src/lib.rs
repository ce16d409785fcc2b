//! An offscreen RGBA drawing surface: rectangles, compositing, scan-converted
//! primitives, image placement and glyph rendering.

pub mod buffer;
pub mod canvas;
pub mod circle;
pub mod color;
pub mod drawing;
pub mod images;
pub mod line;
pub mod rect;
pub mod surface;
pub mod text;

pub use buffer::{load_png, FilterType, LoadError, PixelBuffer};
pub use canvas::OffscreenCanvas;
pub use color::Color;
pub use fontdue::{Font, FontSettings};
pub use images::{Interpolation, ResizeOption};
pub use rect::Rect;
pub use text::{measure_text, Glyph};
