use pager::render::{atlas_chars, dims2pos, AtlasEntry, GlyphAtlas, GlyphRaster, PixelRect, TexQuad};

fn raster(width: usize, height: usize, coverage: &[u8]) -> Option<GlyphRaster> {
    Some(GlyphRaster { width, height, coverage: coverage.to_vec() })
}

fn pixel(atlas: &GlyphAtlas, row: usize, col: usize) -> [u8; 4] {
    let i = (row * atlas.width + col) * 4;
    [atlas.buffer[i], atlas.buffer[i + 1], atlas.buffer[i + 2], atlas.buffer[i + 3]]
}

#[test]
fn dims2pos_flips_rows() {
    let rect = PixelRect { min_x: 2, min_y: 1, max_x: 4, max_y: 4 };
    let tex = dims2pos(10, 5, rect);
    assert_eq!(
        tex,
        TexQuad {
            width: 10,
            height: 5,
            bottom_left: (2, 0),
            top_left: (2, 4),
            top_right: (5, 4),
            bottom_right: (5, 0),
        }
    );
}

#[test]
fn atlas_places_glyphs_side_by_side() {
    let rasters = vec![raster(2, 2, &[1, 2, 3, 4]), raster(1, 3, &[5, 6, 7])];
    let atlas = GlyphAtlas::from_glyphs("ab", &rasters, [10, 20, 30]);
    assert_eq!(atlas.width, 2 + 1 + 2);
    assert_eq!(atlas.height, 3);
    assert_eq!(atlas.buffer.len(), 5 * 3 * 4);
    // glyph 'a' at columns 0..2, its top row at atlas row 1
    assert_eq!(pixel(&atlas, 1, 0), [10, 20, 30, 1]);
    assert_eq!(pixel(&atlas, 1, 1), [10, 20, 30, 2]);
    assert_eq!(pixel(&atlas, 0, 0), [10, 20, 30, 3]);
    assert_eq!(pixel(&atlas, 0, 1), [10, 20, 30, 4]);
    assert_eq!(pixel(&atlas, 2, 0), [0, 0, 0, 0]);
    // spacing column
    for row in 0..3 {
        assert_eq!(pixel(&atlas, row, 2), [0, 0, 0, 0]);
    }
    // glyph 'b' at column 3, its top row at atlas row 2
    assert_eq!(pixel(&atlas, 2, 3), [10, 20, 30, 5]);
    assert_eq!(pixel(&atlas, 1, 3), [10, 20, 30, 6]);
    assert_eq!(pixel(&atlas, 0, 3), [10, 20, 30, 7]);
    for row in 0..3 {
        assert_eq!(pixel(&atlas, row, 4), [0, 0, 0, 0]);
    }
    assert_eq!(
        atlas.map,
        vec![
            AtlasEntry {
                ch: 'a',
                rect: PixelRect { min_x: 0, min_y: 1, max_x: 2, max_y: 2 },
                tex: TexQuad { width: 5, height: 3, bottom_left: (0, 0), top_left: (0, 2), top_right: (3, 2), bottom_right: (3, 0) },
            },
            AtlasEntry {
                ch: 'b',
                rect: PixelRect { min_x: 3, min_y: 0, max_x: 4, max_y: 2 },
                tex: TexQuad { width: 5, height: 3, bottom_left: (3, 0), top_left: (3, 3), top_right: (5, 3), bottom_right: (5, 0) },
            },
        ]
    );
}

#[test]
fn atlas_skips_glyphs_without_pixels() {
    let rasters = vec![raster(1, 1, &[9]), None, raster(1, 1, &[8])];
    let atlas = GlyphAtlas::from_glyphs("x y", &rasters, [1, 2, 3]);
    assert_eq!(atlas.width, 2 + 3);
    assert_eq!(atlas.height, 1);
    assert_eq!(pixel(&atlas, 0, 0), [1, 2, 3, 9]);
    assert_eq!(pixel(&atlas, 0, 1), [0, 0, 0, 0]);
    assert_eq!(pixel(&atlas, 0, 2), [1, 2, 3, 8]);
    let chars: Vec<char> = atlas.map.iter().map(|e| e.ch).collect();
    assert_eq!(chars, vec!['x', 'y']);
    assert_eq!(atlas.map[1].rect, PixelRect { min_x: 2, min_y: 0, max_x: 3, max_y: 0 });
}

#[test]
fn atlas_pairs_characters_with_glyphs_as_far_as_both_go() {
    // more glyphs than characters: the last glyph counts for the size only
    let rasters = vec![raster(1, 1, &[9]), raster(2, 2, &[1, 1, 1, 1])];
    let atlas = GlyphAtlas::from_glyphs("q", &rasters, [0, 0, 0]);
    assert_eq!(atlas.width, 3 + 1);
    assert_eq!(atlas.height, 2);
    assert_eq!(atlas.map.len(), 1);
    assert!(atlas.buffer.iter().enumerate().all(|(i, &b)| if i == 3 { b == 9 } else { b == 0 }));
}

#[test]
fn atlas_width_counts_bytes_of_text() {
    let rasters = vec![raster(1, 1, &[5])];
    let atlas = GlyphAtlas::from_glyphs("é", &rasters, [0, 0, 0]);
    assert_eq!(atlas.width, 1 + 2);
    assert_eq!(atlas.map[0].ch, 'é');
}

#[test]
fn atlas_chars_takes_first_char_of_each_grapheme() {
    assert_eq!(atlas_chars("ab"), vec!['a', 'b']);
    assert_eq!(atlas_chars("a\u{310}e\u{301}"), vec!['a', 'e']);
    assert_eq!(atlas_chars("a\r\nb"), vec!['a', '\r', 'b']);
    assert_eq!(atlas_chars(""), Vec::<char>::new());
}
