use vstd::prelude::*;
use vstd::string::StringSliceAdditionalSpecFns;
use vstd::utf8::*;

verus! {

/// Coverage of one rasterised glyph: `width` x `height` bytes, row by row
/// from the top of the glyph, 0 for an empty and 255 for a fully covered pixel.
pub struct GlyphRaster {
    pub width: usize,
    pub height: usize,
    pub coverage: Vec<u8>,
}

impl GlyphRaster {
    /// There is one coverage byte per pixel.
    pub open spec fn wf(&self) -> bool {
        self.coverage@.len() == self.width * self.height
    }
}

/// A rectangle of atlas pixels, both corners inclusive in `y`; `min_y` is the
/// top row.
#[derive(Clone, Copy, Debug, PartialEq, Eq)]
pub struct PixelRect {
    pub min_x: usize,
    pub min_y: usize,
    pub max_x: usize,
    pub max_y: usize,
}

/// Texture coordinates of a glyph's quad, exact: each corner is
/// `(x / width, y / height)` with `(0, 0)` at the bottom left of the atlas
/// and `(1, 1)` at its top right.
#[derive(Clone, Copy, Debug, PartialEq, Eq)]
pub struct TexQuad {
    pub width: usize,
    pub height: usize,
    pub bottom_left: (usize, usize),
    pub top_left: (usize, usize),
    pub top_right: (usize, usize),
    pub bottom_right: (usize, usize),
}

/// Where a character's glyph lies in the atlas.
#[derive(Clone, Copy, Debug, PartialEq, Eq)]
pub struct AtlasEntry {
    pub ch: char,
    pub rect: PixelRect,
    pub tex: TexQuad,
}

/// A texture holding the glyphs of a set of characters side by side:
/// `width` x `height` RGBA pixels in `buffer`, and for each character that has
/// a glyph, where that glyph lies.
pub struct GlyphAtlas {
    pub width: usize,
    pub height: usize,
    pub buffer: Vec<u8>,
    pub map: Vec<AtlasEntry>,
}

/// Texture coordinates of the pixel rectangle `position` in an atlas of
/// `width_pixels` x `height_pixels`.
pub open spec fn spec_dims2pos(width_pixels: usize, height_pixels: usize, position: PixelRect) -> TexQuad {
    let left = position.min_x;
    let right = (position.max_x + 1) as usize;
    let top = (height_pixels - position.min_y) as usize;
    let bottom = (height_pixels - 1 - position.max_y) as usize;
    TexQuad {
        width: width_pixels,
        height: height_pixels,
        bottom_left: (left, bottom),
        top_left: (left, top),
        top_right: (right, top),
        bottom_right: (right, bottom),
    }
}

/// Converts a pixel rectangle, whose rows count down from the top, into
/// texture coordinates, whose `y` counts up from the bottom.
pub fn dims2pos(width_pixels: usize, height_pixels: usize, position: PixelRect) -> (tex: TexQuad)
    requires
        position.min_y <= height_pixels,
        position.max_y < height_pixels,
        position.max_x < usize::MAX,
    ensures
        tex == spec_dims2pos(width_pixels, height_pixels, position),
        tex.width == width_pixels,
        tex.height == height_pixels,
        tex.bottom_left.0 == position.min_x && tex.top_left.0 == position.min_x,
        tex.top_right.0 == position.max_x + 1 && tex.bottom_right.0 == position.max_x + 1,
        tex.top_left.1 == height_pixels - position.min_y && tex.top_right.1 == height_pixels - position.min_y,
        tex.bottom_left.1 == height_pixels - 1 - position.max_y && tex.bottom_right.1 == height_pixels - 1
            - position.max_y,
{
    let left = position.min_x;
    let right = position.max_x + 1;
    let top = height_pixels - position.min_y;
    let bottom = height_pixels - 1 - position.max_y;
    TexQuad {
        width: width_pixels,
        height: height_pixels,
        bottom_left: (left, bottom),
        top_left: (left, top),
        top_right: (right, top),
        bottom_right: (right, bottom),
    }
}

/// Width of a glyph, 0 where the glyph has no pixels.
pub open spec fn raster_width(r: Option<GlyphRaster>) -> int {
    match r {
        Some(g) => g.width as int,
        None => 0,
    }
}

/// Height of a glyph, 0 where the glyph has no pixels.
pub open spec fn raster_height(r: Option<GlyphRaster>) -> int {
    match r {
        Some(g) => g.height as int,
        None => 0,
    }
}

/// Sum of the widths of the first `k` glyphs.
pub open spec fn spec_width_sum(rs: Seq<Option<GlyphRaster>>, k: int) -> int
    decreases k,
{
    if k <= 0 {
        0
    } else {
        spec_width_sum(rs, k - 1) + raster_width(rs[k - 1])
    }
}

/// Largest height among the first `k` glyphs (0 for none).
pub open spec fn spec_max_height(rs: Seq<Option<GlyphRaster>>, k: int) -> int
    decreases k,
{
    if k <= 0 {
        0
    } else {
        let h = raster_height(rs[k - 1]);
        let prev = spec_max_height(rs, k - 1);
        if prev >= h {
            prev
        } else {
            h
        }
    }
}

/// Column at which glyph `k` is placed: every earlier glyph that has pixels
/// takes its width and one column of spacing.
pub open spec fn spec_slot_offset(rs: Seq<Option<GlyphRaster>>, k: int) -> int
    decreases k,
{
    if k <= 0 {
        0
    } else {
        spec_slot_offset(rs, k - 1) + if rs[k - 1] is Some {
            raster_width(rs[k - 1]) + 1
        } else {
            0
        }
    }
}

/// Atlas width: the widths of all glyphs plus one column per byte of the text.
pub open spec fn spec_atlas_width(rs: Seq<Option<GlyphRaster>>, text_len: int) -> int {
    spec_width_sum(rs, rs.len() as int) + text_len
}

/// Atlas height: the tallest glyph.
pub open spec fn spec_atlas_height(rs: Seq<Option<GlyphRaster>>) -> int {
    spec_max_height(rs, rs.len() as int)
}

/// Pixel rectangle of glyph `j` in an atlas `height` rows high: its columns
/// from its offset on, its rows at the bottom of the atlas.
pub open spec fn spec_slot_rect(rs: Seq<Option<GlyphRaster>>, j: int, height: int) -> PixelRect {
    let off = spec_slot_offset(rs, j);
    PixelRect {
        min_x: off as usize,
        min_y: (height - raster_height(rs[j])) as usize,
        max_x: (off + raster_width(rs[j])) as usize,
        max_y: (height - 1) as usize,
    }
}

/// The atlas entries of the first `k` glyphs: one for each glyph that has
/// pixels, in order, for the character at the same position of `chars`.
pub open spec fn spec_entries(
    chars: Seq<char>,
    rs: Seq<Option<GlyphRaster>>,
    k: int,
    width: int,
    height: int,
) -> Seq<AtlasEntry>
    decreases k,
{
    if k <= 0 {
        seq![]
    } else {
        let prev = spec_entries(chars, rs, k - 1, width, height);
        if rs[k - 1] is Some {
            let rect = spec_slot_rect(rs, k - 1, height);
            prev.push(
                AtlasEntry { ch: chars[k - 1], rect, tex: spec_dims2pos(width as usize, height as usize, rect) },
            )
        } else {
            prev
        }
    }
}

/// Atlas row of the pixel that holds byte `p` of an RGBA buffer `width` pixels wide.
pub open spec fn pixel_row(width: int, p: int) -> int {
    (p / 4) / width
}

/// Atlas column of the pixel that holds byte `p` of an RGBA buffer `width` pixels wide.
pub open spec fn pixel_col(width: int, p: int) -> int {
    (p / 4) % width
}

/// A glyph `w` x `h` placed at column `off` covers atlas pixel `(row, col)`.
pub open spec fn covers(off: int, w: int, h: int, row: int, col: int) -> bool {
    off <= col < off + w && 0 <= row < h
}

/// Byte `chan` of atlas pixel `(row, col)` inside glyph `g` placed at column
/// `off`: the font colour, then the coverage as alpha. The glyph's top row is
/// atlas row `g.height - 1`.
pub open spec fn glyph_byte(g: GlyphRaster, color: Seq<u8>, off: int, row: int, col: int, chan: int) -> u8 {
    if chan < 3 {
        color[chan]
    } else {
        g.coverage@[(g.height - 1 - row) * g.width + (col - off)]
    }
}

/// Byte `chan` of atlas pixel `(row, col)` once the first `k` glyphs are drawn.
pub open spec fn spec_painted(
    rs: Seq<Option<GlyphRaster>>,
    color: Seq<u8>,
    k: int,
    row: int,
    col: int,
    chan: int,
) -> u8
    decreases k,
{
    if k <= 0 {
        0
    } else {
        match rs[k - 1] {
            Some(g) => {
                let off = spec_slot_offset(rs, k - 1);
                if covers(off, g.width as int, g.height as int, row, col) {
                    glyph_byte(g, color, off, row, col, chan)
                } else {
                    spec_painted(rs, color, k - 1, row, col, chan)
                }
            },
            None => spec_painted(rs, color, k - 1, row, col, chan),
        }
    }
}

/// Byte `p` of the RGBA buffer of an atlas `width` pixels wide once the first
/// `k` glyphs are drawn.
pub open spec fn spec_atlas_byte(
    rs: Seq<Option<GlyphRaster>>,
    color: Seq<u8>,
    width: int,
    k: int,
    p: int,
) -> u8 {
    spec_painted(rs, color, k, pixel_row(width, p), pixel_col(width, p), p % 4)
}

proof fn lemma_pixel_index(width: int, row: int, col: int, chan: int)
    requires
        0 <= col < width,
        0 <= row,
        0 <= chan < 4,
    ensures
        pixel_row(width, (row * width + col) * 4 + chan) == row,
        pixel_col(width, (row * width + col) * 4 + chan) == col,
        ((row * width + col) * 4 + chan) % 4 == chan,
{
    let q = row * width + col;
    vstd::arithmetic::div_mod::lemma_fundamental_div_mod_converse(q * 4 + chan, 4, q, chan);
    vstd::arithmetic::div_mod::lemma_fundamental_div_mod_converse(q, width, row, col);
}

proof fn lemma_pixel_of_index(width: int, p: int)
    requires
        width > 0,
        p >= 0,
    ensures
        p == (pixel_row(width, p) * width + pixel_col(width, p)) * 4 + p % 4,
        0 <= pixel_col(width, p) < width,
        0 <= pixel_row(width, p),
        0 <= p % 4 < 4,
{
    vstd::arithmetic::div_mod::lemma_fundamental_div_mod(p, 4);
    vstd::arithmetic::div_mod::lemma_fundamental_div_mod(p / 4, width);
    vstd::arithmetic::div_mod::lemma_mod_bound(p / 4, width);
    vstd::arithmetic::div_mod::lemma_div_pos_is_pos(p / 4, width);
    assert(pixel_row(width, p) * width == width * pixel_row(width, p)) by (nonlinear_arith);
}

proof fn lemma_pixel_bound(width: int, height: int, row: int, col: int)
    requires
        0 <= col < width,
        0 <= row < height,
    ensures
        (row * width + col) * 4 + 3 < width * height * 4,
{
    assert((row * width + col) * 4 + 3 < width * height * 4) by (nonlinear_arith)
        requires
            0 <= col < width,
            0 <= row < height,
    ;
}

proof fn lemma_width_sum_mono(rs: Seq<Option<GlyphRaster>>, i: int, k: int)
    requires
        0 <= i <= k,
    ensures
        0 <= spec_width_sum(rs, i) <= spec_width_sum(rs, k),
    decreases k,
{
    if k > i {
        lemma_width_sum_mono(rs, i, k - 1);
    } else if k > 0 {
        lemma_width_sum_mono(rs, 0, k - 1);
    }
}

proof fn lemma_max_height_bound(rs: Seq<Option<GlyphRaster>>, j: int, k: int)
    requires
        0 <= j < k,
    ensures
        0 <= raster_height(rs[j]) <= spec_max_height(rs, k),
    decreases k,
{
    if j < k - 1 {
        lemma_max_height_bound(rs, j, k - 1);
    }
}

proof fn lemma_offset_bound(rs: Seq<Option<GlyphRaster>>, k: int)
    requires
        0 <= k,
    ensures
        0 <= spec_slot_offset(rs, k) <= spec_width_sum(rs, k) + k,
    decreases k,
{
    if k > 0 {
        lemma_offset_bound(rs, k - 1);
    }
}

proof fn lemma_encode_len(chars: Seq<char>)
    ensures
        encode_utf8(chars).len() >= chars.len(),
    decreases chars.len(),
{
    if chars.len() > 0 {
        lemma_encode_len(chars.drop_first());
    }
}

proof fn lemma_offset_mono(rs: Seq<Option<GlyphRaster>>, i: int, j: int)
    requires
        0 <= i <= j,
    ensures
        spec_slot_offset(rs, i) <= spec_slot_offset(rs, j),
    decreases j,
{
    if j > i {
        lemma_offset_mono(rs, i, j - 1);
    }
}

/// Glyph slots never overlap: a later glyph starts at least one column after
/// an earlier glyph with pixels ends.
pub proof fn lemma_slots_disjoint(rs: Seq<Option<GlyphRaster>>, i: int, j: int)
    requires
        0 <= i < j,
        rs[i] is Some,
    ensures
        spec_slot_offset(rs, i) + raster_width(rs[i]) < spec_slot_offset(rs, j),
{
    lemma_offset_mono(rs, i + 1, j);
}

/// Every glyph placed lies inside the atlas, with its column of spacing: its
/// slot ends at most at the atlas's right edge and it is no taller than the
/// atlas. So every texture coordinate of the atlas entries lies between 0
/// and 1.
pub proof fn lemma_slot_inside(rs: Seq<Option<GlyphRaster>>, text_len: int, m: int, j: int)
    requires
        0 <= j < m,
        m <= rs.len(),
        m <= text_len,
        rs[j] is Some,
    ensures
        spec_slot_offset(rs, j) + raster_width(rs[j]) + 1 <= spec_atlas_width(rs, text_len),
        raster_height(rs[j]) <= spec_atlas_height(rs),
{
    lemma_offset_bound(rs, j);
    lemma_width_sum_mono(rs, j + 1, rs.len() as int);
    lemma_max_height_bound(rs, j, rs.len() as int);
}

/// A pixel inside the slot of glyph `j` holds glyph `j`'s colour and coverage
/// once the first `m` glyphs are drawn: no other glyph draws over it.
pub proof fn lemma_painted_inside_slot(
    rs: Seq<Option<GlyphRaster>>,
    color: Seq<u8>,
    m: int,
    j: int,
    row: int,
    col: int,
    chan: int,
)
    requires
        0 <= j < m,
        rs[j] is Some,
        covers(spec_slot_offset(rs, j), raster_width(rs[j]), raster_height(rs[j]), row, col),
    ensures
        spec_painted(rs, color, m, row, col, chan) == glyph_byte(rs[j]->0, color, spec_slot_offset(rs, j), row, col, chan),
    decreases m,
{
    if m - 1 > j {
        lemma_painted_inside_slot(rs, color, m - 1, j, row, col, chan);
        if rs[m - 1] is Some {
            lemma_slots_disjoint(rs, j, m - 1);
        }
    }
}

/// A pixel outside the slots of the first `m` glyphs stays 0.
pub proof fn lemma_painted_outside_slots(
    rs: Seq<Option<GlyphRaster>>,
    color: Seq<u8>,
    m: int,
    row: int,
    col: int,
    chan: int,
)
    requires
        forall|j: int|
            0 <= j < m && #[trigger] rs[j] is Some ==> !covers(
                spec_slot_offset(rs, j),
                raster_width(rs[j]),
                raster_height(rs[j]),
                row,
                col,
            ),
    ensures
        spec_painted(rs, color, m, row, col, chan) == 0,
    decreases m,
{
    if m > 0 {
        lemma_painted_outside_slots(rs, color, m - 1, row, col, chan);
    }
}

/// Byte `chan` of pixel `(row, col)` of an atlas buffer is the byte that the
/// drawing of the first `k` glyphs leaves there.
pub proof fn lemma_atlas_pixel(
    rs: Seq<Option<GlyphRaster>>,
    color: Seq<u8>,
    width: int,
    k: int,
    row: int,
    col: int,
    chan: int,
)
    requires
        0 <= col < width,
        0 <= row,
        0 <= chan < 4,
    ensures
        spec_atlas_byte(rs, color, width, k, (row * width + col) * 4 + chan) == spec_painted(
            rs,
            color,
            k,
            row,
            col,
            chan,
        ),
{
    lemma_pixel_index(width, row, col, chan);
}

/// Coverage byte of pixel `(x, y)` of glyph `g`, `y` counted from its top row.
pub open spec fn coverage_at(g: GlyphRaster, x: int, y: int) -> u8 {
    g.coverage@[y * g.width + x]
}

/// Index of byte `chan` of the atlas pixel (in an atlas `width` pixels wide)
/// that shows pixel `(x, y)` of a glyph `h` rows high placed at column `off`:
/// atlas row `h - 1 - y`, atlas column `off + x`.
pub open spec fn glyph_pixel_index(width: int, h: int, off: int, x: int, y: int, chan: int) -> int {
    ((h - 1 - y) * width + off + x) * 4 + chan
}

/// Each pixel of a placed glyph shows in the atlas with the font colour and
/// with the glyph's own coverage as alpha, at the glyph's slot: no other
/// glyph draws over it.
pub proof fn lemma_glyph_pixel_in_atlas(
    rs: Seq<Option<GlyphRaster>>,
    color: Seq<u8>,
    text_len: int,
    m: int,
    j: int,
    x: int,
    y: int,
    chan: int,
)
    requires
        0 <= j < m,
        m <= rs.len(),
        m <= text_len,
        rs[j] is Some,
        0 <= x < rs[j]->0.width,
        0 <= y < rs[j]->0.height,
        0 <= chan < 4,
    ensures
        0 <= glyph_pixel_index(
            spec_atlas_width(rs, text_len),
            rs[j]->0.height as int,
            spec_slot_offset(rs, j),
            x,
            y,
            chan,
        ) < spec_atlas_width(rs, text_len) * spec_atlas_height(rs) * 4,
        spec_atlas_byte(
            rs,
            color,
            spec_atlas_width(rs, text_len),
            m,
            glyph_pixel_index(spec_atlas_width(rs, text_len), rs[j]->0.height as int, spec_slot_offset(rs, j), x, y, chan),
        ) == if chan < 3 {
            color[chan]
        } else {
            coverage_at(rs[j]->0, x, y)
        },
{
    let g = rs[j]->0;
    let w = spec_atlas_width(rs, text_len);
    let off = spec_slot_offset(rs, j);
    let row = g.height - 1 - y;
    let col = off + x;
    lemma_slot_inside(rs, text_len, m, j);
    lemma_offset_bound(rs, j);
    lemma_pixel_bound(w, spec_atlas_height(rs), row, col);
    lemma_atlas_pixel(rs, color, w, m, row, col, chan);
    lemma_painted_inside_slot(rs, color, m, j, row, col, chan);
    assert((g.height - 1 - row) * g.width + (col - off) == y * g.width + x);
    assert(glyph_pixel_index(w, g.height as int, off, x, y, chan) == (row * w + col) * 4 + chan);
}

/// Index of byte `chan` of atlas pixel `(row, col)` in an atlas `width`
/// pixels wide.
pub open spec fn atlas_index(width: int, row: int, col: int, chan: int) -> int {
    (row * width + col) * 4 + chan
}

/// Atlas pixel `(row, col)` lies in the slot of one of the first `m` glyphs.
pub open spec fn in_some_slot(rs: Seq<Option<GlyphRaster>>, m: int, row: int, col: int) -> bool {
    exists|j: int|
        0 <= j < m && #[trigger] rs[j] is Some && covers(
            spec_slot_offset(rs, j),
            raster_width(rs[j]),
            raster_height(rs[j]),
            row,
            col,
        )
}

/// Number of glyphs placed: the text's characters are paired with the
/// glyphs in order, as far as both go.
pub open spec fn spec_zip_len(chars_len: int, glyphs_len: int) -> int {
    if chars_len <= glyphs_len {
        chars_len
    } else {
        glyphs_len
    }
}

/// Whether the drawing loop has reached glyph pixel `(gx, gy)` before `(x, y)`.
pub open spec fn drawn_before(gy: int, gx: int, y: int, x: int) -> bool {
    gy < y || (gy == y && gx < x)
}

/// Draws glyph `g` at column `off` of an atlas `width` x `height`: colour and
/// coverage of each of its pixels, its top row at atlas row `g.height - 1`.
fn paint_glyph(buffer: &mut Vec<u8>, width: usize, height: usize, off: usize, g: &GlyphRaster, color: [u8; 3])
    requires
        g.wf(),
        off + g.width <= width,
        g.height <= height,
        old(buffer)@.len() == width * height * 4,
    ensures
        final(buffer)@.len() == old(buffer)@.len(),
        forall|p: int|
            0 <= p < final(buffer)@.len() ==> #[trigger] final(buffer)@[p] == if covers(
                off as int,
                g.width as int,
                g.height as int,
                pixel_row(width as int, p),
                pixel_col(width as int, p),
            ) {
                glyph_byte(*g, color@, off as int, pixel_row(width as int, p), pixel_col(width as int, p), p % 4)
            } else {
                old(buffer)@[p]
            },
{
    let ghost before = buffer@;
    let gw = g.width;
    let gh = g.height;
    let clen = g.coverage.len();
    let blen = buffer.len();
    let mut y: usize = 0;
    while y < gh
        invariant
            g.wf(),
            gw == g.width,
            gh == g.height,
            clen == g.coverage@.len(),
            blen == before.len(),
            off + gw <= width,
            gh <= height,
            y <= gh,
            before.len() == width * height * 4,
            buffer@.len() == before.len(),
            forall|p: int|
                0 <= p < buffer@.len() ==> #[trigger] buffer@[p] == if covers(
                    off as int,
                    gw as int,
                    gh as int,
                    pixel_row(width as int, p),
                    pixel_col(width as int, p),
                ) && drawn_before(
                    gh - 1 - pixel_row(width as int, p),
                    pixel_col(width as int, p) - off,
                    y as int,
                    0,
                ) {
                    glyph_byte(*g, color@, off as int, pixel_row(width as int, p), pixel_col(width as int, p), p % 4)
                } else {
                    before[p]
                },
        decreases gh - y,
    {
        let row = gh - 1 - y;
        let mut x: usize = 0;
        while x < gw
            invariant
                g.wf(),
                gw == g.width,
                gh == g.height,
                clen == g.coverage@.len(),
                blen == before.len(),
                off + gw <= width,
                gh <= height,
                y < gh,
                row == gh - 1 - y,
                x <= gw,
                before.len() == width * height * 4,
                buffer@.len() == before.len(),
                forall|p: int|
                    0 <= p < buffer@.len() ==> #[trigger] buffer@[p] == if covers(
                        off as int,
                        gw as int,
                        gh as int,
                        pixel_row(width as int, p),
                        pixel_col(width as int, p),
                    ) && drawn_before(
                        gh - 1 - pixel_row(width as int, p),
                        pixel_col(width as int, p) - off,
                        y as int,
                        x as int,
                    ) {
                        glyph_byte(*g, color@, off as int, pixel_row(width as int, p), pixel_col(width as int, p), p % 4)
                    } else {
                        before[p]
                    },
            decreases gw - x,
        {
            proof {
                lemma_pixel_bound(width as int, height as int, row as int, (off + x) as int);
                assert((y as int) * (gw as int) + (x as int) < (gw as int) * (gh as int)) by (nonlinear_arith)
                    requires
                        x < gw,
                        y < gh,
                ;
            }
            let v = g.coverage[y * gw + x];
            let index = (row * width + off + x) * 4;
            let ghost mid = buffer@;
            buffer.set(index, color[0]);
            buffer.set(index + 1, color[1]);
            buffer.set(index + 2, color[2]);
            buffer.set(index + 3, v);
            proof {
                let col = off + x;
                assert forall|p: int| 0 <= p < buffer@.len() implies #[trigger] buffer@[p] == if covers(
                    off as int,
                    gw as int,
                    gh as int,
                    pixel_row(width as int, p),
                    pixel_col(width as int, p),
                ) && drawn_before(
                    gh - 1 - pixel_row(width as int, p),
                    pixel_col(width as int, p) - off,
                    y as int,
                    x + 1,
                ) {
                    glyph_byte(*g, color@, off as int, pixel_row(width as int, p), pixel_col(width as int, p), p % 4)
                } else {
                    before[p]
                } by {
                    lemma_pixel_of_index(width as int, p);
                    if index <= p < index + 4 {
                        lemma_pixel_index(width as int, row as int, col as int, p - index);
                        assert((row as int) * (width as int) + (off + x) == (row * width + off + x));
                    } else {
                        assert(buffer@[p] == mid[p]);
                        if pixel_row(width as int, p) == row && pixel_col(width as int, p) == col {
                            assert(p == index + p % 4);
                        }
                    }
                }
            }
            x = x + 1;
        }
        y = y + 1;
    }
}

impl GlyphAtlas {
    /// Lays out the glyphs of `text` side by side and draws them in `color`.
    ///
    /// `rasters[j]` is the glyph of the `j`-th grapheme of `text`, `None` where
    /// it has no pixels. The atlas is as wide as all glyphs together plus one
    /// column per byte of `text`, and as high as the tallest glyph. The
    /// characters of `text` are paired with the glyphs in order; each glyph
    /// with pixels is drawn at the next free column, with one column of
    /// spacing after it, its top row at atlas row `height - 1`, and gets an
    /// entry in `map`.
    pub fn from_glyphs(text: &str, rasters: &Vec<Option<GlyphRaster>>, color: [u8; 3]) -> (atlas: GlyphAtlas)
        requires
            rasters@.len() > 0,
            forall|j: int| 0 <= j < rasters@.len() ==> (#[trigger] rasters@[j] matches Some(g) ==> g.wf()),
            text.spec_bytes().len() <= usize::MAX,
            spec_atlas_width(rasters@, text.len() as int) <= usize::MAX,
            spec_atlas_width(rasters@, text.len() as int) * spec_atlas_height(rasters@) * 4 <= usize::MAX,
            spec_atlas_height(rasters@) > 0 || forall|j: int|
                0 <= j < spec_zip_len(text@.len() as int, rasters@.len() as int) ==> (#[trigger] rasters@[j] is None),
        ensures
            atlas.width == spec_atlas_width(rasters@, text.len() as int),
            atlas.height == spec_atlas_height(rasters@),
            atlas.buffer@.len() == atlas.width * atlas.height * 4,
            forall|p: int|
                0 <= p < atlas.buffer@.len() ==> #[trigger] atlas.buffer@[p] == spec_atlas_byte(
                    rasters@,
                    color@,
                    atlas.width as int,
                    spec_zip_len(text@.len() as int, rasters@.len() as int),
                    p,
                ),
            atlas.map@ == spec_entries(
                text@,
                rasters@,
                spec_zip_len(text@.len() as int, rasters@.len() as int),
                atlas.width as int,
                atlas.height as int,
            ),
            forall|j: int, x: int, y: int|
                0 <= j < spec_zip_len(text@.len() as int, rasters@.len() as int) && rasters@[j] is Some && 0 <= x
                    < rasters@[j]->0.width && 0 <= y < rasters@[j]->0.height ==> atlas.buffer@[glyph_pixel_index(
                    atlas.width as int,
                    rasters@[j]->0.height as int,
                    spec_slot_offset(rasters@, j),
                    x,
                    y,
                    3,
                )] == #[trigger] coverage_at(rasters@[j]->0, x, y),
            forall|j: int, x: int, y: int, c: int|
                #![trigger glyph_pixel_index(atlas.width as int, rasters@[j]->0.height as int, spec_slot_offset(rasters@, j), x, y, c)]
                0 <= j < spec_zip_len(text@.len() as int, rasters@.len() as int) && rasters@[j] is Some && 0 <= x
                    < rasters@[j]->0.width && 0 <= y < rasters@[j]->0.height && 0 <= c < 3
                    ==> atlas.buffer@[glyph_pixel_index(
                    atlas.width as int,
                    rasters@[j]->0.height as int,
                    spec_slot_offset(rasters@, j),
                    x,
                    y,
                    c,
                )] == color@[c],
            forall|row: int, col: int, c: int|
                0 <= row < atlas.height && 0 <= col < atlas.width && 0 <= c < 4 && !in_some_slot(
                    rasters@,
                    spec_zip_len(text@.len() as int, rasters@.len() as int),
                    row,
                    col,
                ) ==> atlas.buffer@[#[trigger] atlas_index(atlas.width as int, row, col, c)] == 0,
    {
        let ghost rs = rasters@;
        let n = rasters.len();
        let mut sum: usize = 0;
        let mut max_height: usize = 0;
        let mut i: usize = 0;
        while i < n
            invariant
                n == rs.len(),
                rs == rasters@,
                i <= n,
                sum == spec_width_sum(rs, i as int),
                max_height == spec_max_height(rs, i as int),
                spec_atlas_width(rs, text.len() as int) <= usize::MAX,
            decreases n - i,
        {
            proof {
                lemma_width_sum_mono(rs, i + 1, n as int);
            }
            match &rasters[i] {
                Some(g) => {
                    sum = sum + g.width;
                    if g.height > max_height {
                        max_height = g.height;
                    }
                },
                None => {},
            }
            i = i + 1;
        }
        let width_pixels = sum + text.len();
        let height_pixels = max_height;
        let mut buffer = vec![0u8; width_pixels * height_pixels * 4];
        let chars_len = text.unicode_len();
        let m = if chars_len <= n { chars_len } else { n };
        proof {
            lemma_encode_len(text@);
            lemma_width_sum_mono(rs, m as int, n as int);
            assert forall|p: int| 0 <= p < buffer@.len() implies #[trigger] buffer@[p] == spec_atlas_byte(
                rs,
                color@,
                width_pixels as int,
                0,
                p,
            ) by {}
            assert(spec_entries(text@, rs, 0, width_pixels as int, height_pixels as int) =~= Seq::<AtlasEntry>::empty());
        }
        let mut map: Vec<AtlasEntry> = Vec::new();
        let mut curr_x: usize = 0;
        let mut j: usize = 0;
        while j < m
            invariant
                n == rs.len(),
                rs == rasters@,
                forall|j: int| 0 <= j < rs.len() ==> (#[trigger] rs[j] matches Some(g) ==> g.wf()),
                m == spec_zip_len(text@.len() as int, n as int),
                m <= text@.len(),
                m <= text.len(),
                width_pixels == spec_atlas_width(rs, text.len() as int),
                height_pixels == spec_atlas_height(rs),
                width_pixels == spec_width_sum(rs, n as int) + text.len(),
                spec_width_sum(rs, m as int) <= spec_width_sum(rs, n as int),
                spec_atlas_height(rs) > 0 || forall|j: int| 0 <= j < m ==> (#[trigger] rs[j] is None),
                j <= m,
                curr_x == spec_slot_offset(rs, j as int),
                buffer@.len() == width_pixels * height_pixels * 4,
                forall|p: int|
                    0 <= p < buffer@.len() ==> #[trigger] buffer@[p] == spec_atlas_byte(
                        rs,
                        color@,
                        width_pixels as int,
                        j as int,
                        p,
                    ),
                map@ == spec_entries(text@, rs, j as int, width_pixels as int, height_pixels as int),
            decreases m - j,
        {
            let c = text.get_char(j);
            match &rasters[j] {
                Some(g) => {
                    proof {
                        lemma_offset_bound(rs, j as int);
                        lemma_width_sum_mono(rs, j + 1, m as int);
                        lemma_max_height_bound(rs, j as int, n as int);
                        assert(rs[j as int] is Some);
                    }
                    let gw = g.width;
                    let gh = g.height;
                    let ghost before = buffer@;
                    paint_glyph(&mut buffer, width_pixels, height_pixels, curr_x, g, color);
                    proof {
                        assert forall|p: int| 0 <= p < buffer@.len() implies #[trigger] buffer@[p] == spec_atlas_byte(
                            rs,
                            color@,
                            width_pixels as int,
                            j + 1,
                            p,
                        ) by {
                            assert(before[p] == spec_atlas_byte(rs, color@, width_pixels as int, j as int, p));
                        }
                    }
                    let rect = PixelRect {
                        min_x: curr_x,
                        min_y: height_pixels - gh,
                        max_x: curr_x + gw,
                        max_y: height_pixels - 1,
                    };
                    let tex = dims2pos(width_pixels, height_pixels, rect);
                    map.push(AtlasEntry { ch: c, rect, tex });
                    curr_x = curr_x + gw + 1;
                },
                None => {
                    proof {
                        assert forall|p: int| 0 <= p < buffer@.len() implies #[trigger] buffer@[p] == spec_atlas_byte(
                            rs,
                            color@,
                            width_pixels as int,
                            j + 1,
                            p,
                        ) by {}
                    }
                },
            }
            j = j + 1;
        }
        let atlas = GlyphAtlas { width: width_pixels, height: height_pixels, buffer, map };
        proof {
            let tl = text.len() as int;
            assert forall|jj: int, x: int, y: int|
                0 <= jj < spec_zip_len(text@.len() as int, rasters@.len() as int) && rasters@[jj] is Some && 0 <= x
                    < rasters@[jj]->0.width && 0 <= y < rasters@[jj]->0.height implies atlas.buffer@[glyph_pixel_index(
                    atlas.width as int,
                    rasters@[jj]->0.height as int,
                    spec_slot_offset(rasters@, jj),
                    x,
                    y,
                    3,
                )] == #[trigger] coverage_at(rasters@[jj]->0, x, y) by {
                lemma_glyph_pixel_in_atlas(rs, color@, tl, m as int, jj, x, y, 3);
            }
            assert forall|jj: int, x: int, y: int, c: int|
                #![trigger glyph_pixel_index(atlas.width as int, rasters@[jj]->0.height as int, spec_slot_offset(rasters@, jj), x, y, c)]
                0 <= jj < spec_zip_len(text@.len() as int, rasters@.len() as int) && rasters@[jj] is Some && 0 <= x
                    < rasters@[jj]->0.width && 0 <= y < rasters@[jj]->0.height && 0 <= c < 3
                    implies atlas.buffer@[glyph_pixel_index(
                    atlas.width as int,
                    rasters@[jj]->0.height as int,
                    spec_slot_offset(rasters@, jj),
                    x,
                    y,
                    c,
                )] == color@[c] by {
                lemma_glyph_pixel_in_atlas(rs, color@, tl, m as int, jj, x, y, c);
            }
            assert forall|row: int, col: int, c: int|
                0 <= row < atlas.height && 0 <= col < atlas.width && 0 <= c < 4 && !in_some_slot(
                    rasters@,
                    spec_zip_len(text@.len() as int, rasters@.len() as int),
                    row,
                    col,
                ) implies atlas.buffer@[#[trigger] atlas_index(atlas.width as int, row, col, c)] == 0 by {
                lemma_pixel_bound(atlas.width as int, atlas.height as int, row, col);
                lemma_atlas_pixel(rs, color@, atlas.width as int, m as int, row, col, c);
                lemma_painted_outside_slots(rs, color@, m as int, row, col, c);
            }
        }
        atlas
    }
}

} // verus!
