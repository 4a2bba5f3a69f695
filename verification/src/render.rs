//! Rendering logic: everything the pager computes before it talks to the GPU
//! or to the logger.

pub(crate) mod text;
pub mod terminal;
pub mod hex;
pub mod atlas;
pub mod segment;
pub mod mesh;

pub use terminal::{calc_chunk_size, chunk_size_for, render_alpha_lines, terminal_render, terminal_render_for};
pub use hex::char2hex;
pub use atlas::{dims2pos, AtlasEntry, GlyphAtlas, GlyphRaster, PixelRect, TexQuad};
pub use segment::atlas_chars;
pub use mesh::{cursor_quads, glyph_quad_indices};
