//! A word-cloud canvas engine.
//!
//! The engine owns a fixed-size RGBA pixel grid. A caller hands it one shaped
//! text block at a time; the engine searches the grid for a rectangle whose
//! sampled interior holds no painted cell, and rasterizes the block there by
//! overwriting the cells it covers. Cells only ever go from blank to painted.
//! Shaping text into a block of plain glyph cells, and encoding the finished
//! grid to an image file, are left to collaborators around the library.

pub mod canvas;
pub mod draw;
pub mod laws;
pub mod rng;
pub mod search;

pub use canvas::Canvas;
pub use canvas::Rgba;
pub use draw::GlyphBlock;
pub use draw::GlyphPixel;
