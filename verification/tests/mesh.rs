use pager::render::{cursor_quads, glyph_quad_indices};

#[test]
fn glyph_indices_for_drawn_glyphs() {
    assert_eq!(
        glyph_quad_indices(&vec![true, false, true]),
        vec![1, 2, 0, 0, 2, 3, 5, 6, 4, 4, 6, 7]
    );
    assert_eq!(glyph_quad_indices(&vec![false, false]), Vec::<u32>::new());
}

#[test]
fn glyph_indices_stay_inside_vertex_list() {
    let drawn: Vec<bool> = (0..50).map(|i| i % 3 != 0).collect();
    let count = drawn.iter().filter(|&&d| d).count() as u32;
    let indices = glyph_quad_indices(&drawn);
    assert_eq!(indices.len() as u32, 6 * count);
    assert!(indices.iter().all(|&i| i < 4 * count));
}

#[test]
fn cursors_in_frame() {
    let (offsets, triangles) = cursor_quads(&vec![0, 5, 2, 9, 6], 2, 6);
    assert_eq!(offsets, vec![3, 0]);
    assert_eq!(triangles, vec![0, 1, 2, 0, 2, 3, 4, 5, 6, 4, 6, 7]);
}

#[test]
fn no_cursors_in_empty_frame() {
    let (offsets, triangles) = cursor_quads(&vec![1, 2, 3], 2, 2);
    assert!(offsets.is_empty());
    assert!(triangles.is_empty());
}
