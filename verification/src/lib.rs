//! Verified core of a small GPU text pager: the text-mode preview of a
//! glyph atlas, the layout of the atlas itself, the index buffers that the
//! renderer uploads, and the decisions taken on keyboard input.

pub mod render;
pub mod input;
