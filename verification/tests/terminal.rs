use pager::render::{calc_chunk_size, chunk_size_for, render_alpha_lines, terminal_render, terminal_render_for};

fn rgba_with_alpha(alphas: &[u8]) -> Vec<u8> {
    let mut buffer = Vec::new();
    for &a in alphas {
        buffer.extend_from_slice(&[7, 8, 9, a]);
    }
    buffer
}

#[test]
fn alpha_lines_chunks_then_leftover_columns() {
    // 3 x 2 pixels, rows listed top to bottom: y = 0 then y = 1
    let buffer = rgba_with_alpha(&[0, 60, 120, 180, 255, 52]);
    let lines = render_alpha_lines(3, 2, &buffer, 2);
    assert_eq!(lines, vec!["OOWW", "  ::", "::", "||"]);
}

#[test]
fn alpha_lines_palette_bands() {
    let alphas = [0u8, 51, 52, 103, 104, 155, 156, 207, 208, 255];
    let buffer = rgba_with_alpha(&alphas);
    let lines = render_alpha_lines(10, 1, &buffer, 100);
    assert_eq!(lines, vec!["    ::::||||OOOOWWWW"]);
}

#[test]
fn alpha_lines_several_chunks() {
    let buffer = rgba_with_alpha(&[255, 0, 255, 0, 255]);
    let lines = render_alpha_lines(5, 1, &buffer, 2);
    assert_eq!(lines, vec!["WW  ", "WW  ", "WW"]);
}

#[test]
fn alpha_lines_exact_chunks_leave_empty_lines() {
    let buffer = rgba_with_alpha(&[255, 255, 0, 0]);
    let lines = render_alpha_lines(2, 2, &buffer, 2);
    assert_eq!(lines, vec!["    ", "WWWW", "", ""]);
}

#[test]
fn alpha_lines_empty_image() {
    let lines = render_alpha_lines(0, 0, &[], 3);
    assert!(lines.is_empty());
}

#[test]
fn chunk_size_from_terminal_width() {
    assert_eq!(chunk_size_for(None, 176), Some(66));
    assert_eq!(chunk_size_for(Some((100, 40)), 176), Some(28));
    assert_eq!(chunk_size_for(Some((44, 40)), 176), Some(0));
    assert_eq!(chunk_size_for(Some((43, 40)), 176), Some(0));
    assert_eq!(chunk_size_for(Some((42, 40)), 176), None);
    assert_eq!(chunk_size_for(None, 10), None);
}

#[test]
fn chunk_size_of_this_terminal() {
    assert_eq!(calc_chunk_size(176), chunk_size_for(term_size::dimensions(), 176));
}

#[test]
fn terminal_render_for_given_sizes() {
    let buffer = rgba_with_alpha(&[0, 60, 120, 180, 255, 52]);
    // 47 columns leave room for 2 pixels per line
    assert_eq!(
        terminal_render_for(Some((47, 20)), 3, 2, &buffer),
        Some(vec!["OOWW".to_string(), "  ::".to_string(), "::".to_string(), "||".to_string()])
    );
    // no terminal: 176 columns, 66 pixels per line, so only leftover lines
    assert_eq!(
        terminal_render_for(None, 3, 2, &buffer),
        Some(vec!["OOWW::".to_string(), "  ::||".to_string()])
    );
    // 44 columns leave no room for a pixel
    assert_eq!(terminal_render_for(Some((44, 20)), 3, 2, &buffer), None);
    // a terminal narrower than the log prefix
    assert_eq!(terminal_render_for(Some((20, 20)), 3, 2, &buffer), None);
}

#[test]
fn terminal_render_matches_this_terminal() {
    let buffer = rgba_with_alpha(&[0, 60, 120, 180, 255, 52]);
    assert_eq!(
        terminal_render(3, 2, &buffer),
        terminal_render_for(term_size::dimensions(), 3, 2, &buffer)
    );
}

#[test]
fn each_pixel_in_one_line() {
    // 7 x 3 image in chunks of 3: every pixel's two characters appear once
    let alphas: Vec<u8> = (0..21u32).map(|i| if i % 4 == 0 { 255 } else { 0 }).collect();
    let buffer = rgba_with_alpha(&alphas);
    let lines = render_alpha_lines(7, 3, &buffer, 3);
    assert_eq!(lines.len(), 2 * 3 + 3);
    let total: usize = lines.iter().map(|l| l.len()).sum();
    assert_eq!(total, 2 * 21);
    let full: usize = lines.iter().map(|l| l.matches("WW").count()).sum();
    assert_eq!(full, alphas.iter().filter(|&&a| a == 255).count());
}
