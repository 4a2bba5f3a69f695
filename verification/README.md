# pager

A GPU text pager's rendering core, verified with Verus.

- `src/render/terminal.rs`: the text preview of an RGBA buffer's alpha
  channel, cut to the width of the terminal (`term_size`).
- `src/render/hex.rs`: `\xNN` escapes of a character's UTF-8 bytes.
- `src/render/segment.rs`: the characters of the glyph atlas, one per
  grapheme cluster (`unicode-segmentation`).
- `src/render/atlas.rs`: layout and drawing of the glyph atlas from
  rasterised glyphs, and texture coordinates as exact fractions.
- `src/render/mesh.rs`: triangle index lists for glyph and cursor quads.
- `src/input.rs`: the edit and redraw that a key event asks for.
- `app/`: the window, the event loop, rusttype rasterisation, glium drawing
  and the floating-point geometry.
