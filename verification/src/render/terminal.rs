use vstd::prelude::*;

use crate::render::text::push_char;

verus! {

/// The characters used to draw coverage in the terminal, from empty to full.
pub open spec fn shade_palette() -> Seq<char> {
    seq![' ', ':', '|', 'O', 'W']
}

/// Width of the coverage band that each palette entry stands for:
/// `256 / 5`, rounded up so that every byte lands inside the palette.
pub open spec fn shade_band() -> int {
    52
}

/// The palette character that stands for an alpha byte.
pub open spec fn spec_shade(alpha: u8) -> char {
    shade_palette()[(alpha as int) / shade_band()]
}

/// Alpha byte of pixel `(x, y)` in an RGBA buffer whose rows are `width` pixels long.
pub open spec fn spec_alpha(buffer: Seq<u8>, width: int, x: int, y: int) -> u8 {
    buffer[(y * width + x) * 4 + 3]
}

/// One text line: the pixels `lo..hi` of row `y`, each drawn as two palette characters.
pub open spec fn spec_row(buffer: Seq<u8>, width: int, y: int, lo: int, hi: int) -> Seq<char> {
    Seq::new((2 * (hi - lo)) as nat, |i: int| spec_shade(spec_alpha(buffer, width, lo + i / 2, y)))
}

/// Number of full column chunks of `chunk` pixels in a row `width` pixels wide.
pub open spec fn spec_chunks(width: int, chunk: int) -> int {
    width / chunk
}

/// Number of lines of the preview: one per full chunk and row, then one per
/// row for the columns left over.
pub open spec fn spec_line_count(width: int, height: int, chunk: int) -> int {
    spec_chunks(width, chunk) * height + height
}

/// Row shown by line `i`: rows are listed from the bottom row up, for each
/// chunk and then for the leftover columns.
pub open spec fn spec_line_row(width: int, height: int, chunk: int, i: int) -> int {
    if i < spec_chunks(width, chunk) * height {
        height - 1 - i % height
    } else {
        height - 1 - (i - spec_chunks(width, chunk) * height)
    }
}

/// First column shown by line `i`.
pub open spec fn spec_line_lo(width: int, height: int, chunk: int, i: int) -> int {
    if i < spec_chunks(width, chunk) * height {
        (i / height) * chunk
    } else {
        spec_chunks(width, chunk) * chunk
    }
}

/// Column after the last one shown by line `i`.
pub open spec fn spec_line_hi(width: int, height: int, chunk: int, i: int) -> int {
    if i < spec_chunks(width, chunk) * height {
        (i / height) * chunk + chunk
    } else {
        width
    }
}

/// The lines that make up the text preview of an RGBA buffer: first, for each
/// of the `width / chunk` full column chunks, that chunk of every row from the
/// bottom row up; then the columns left over after the last full chunk, again
/// from the bottom row up.
pub open spec fn spec_render(buffer: Seq<u8>, width: int, height: int, chunk: int) -> Seq<Seq<char>> {
    Seq::new(
        spec_line_count(width, height, chunk) as nat,
        |i: int|
            spec_row(
                buffer,
                width,
                spec_line_row(width, height, chunk, i),
                spec_line_lo(width, height, chunk, i),
                spec_line_hi(width, height, chunk, i),
            ),
    )
}

proof fn lemma_chunk_bounds(width: int, chunk: int, z: int)
    requires
        chunk > 0,
        width >= 0,
        0 <= z <= width / chunk,
    ensures
        z * chunk <= (width / chunk) * chunk <= width,
        z < width / chunk ==> z * chunk + chunk <= width,
{
    let q = width / chunk;
    vstd::arithmetic::div_mod::lemma_fundamental_div_mod(width, chunk);
    assert(z * chunk <= q * chunk <= width && (z < q ==> z * chunk + chunk <= width)) by (nonlinear_arith)
        requires
            chunk > 0,
            width >= 0,
            0 <= z <= q,
            width == chunk * q + width % chunk,
            width % chunk >= 0,
    ;
}

proof fn lemma_line_index(z: int, height: int, k: int)
    requires
        0 <= k < height,
        z >= 0,
    ensures
        (z * height + k) / height == z,
        (z * height + k) % height == k,
{
    vstd::arithmetic::div_mod::lemma_fundamental_div_mod_converse(z * height + k, height, z, k);
}

proof fn lemma_pixel_in_buffer(width: int, height: int, x: int, y: int)
    requires
        0 <= x < width,
        0 <= y < height,
    ensures
        0 <= y * width + x < width * height,
{
    assert(0 <= y * width + x < width * height) by (nonlinear_arith)
        requires
            0 <= x < width,
            0 <= y < height,
    ;
}

fn shade(alpha: u8) -> (c: char)
    ensures
        c == spec_shade(alpha),
{
    let palette: [char; 5] = [' ', ':', '|', 'O', 'W'];
    let divisor: usize = 256 / 5 + if 256 % 5 != 0 { 1 } else { 0 };
    assert(divisor == 52);
    let i: usize = alpha as usize / divisor;
    assert(i < 5);
    assert(palette@ == shade_palette());
    palette[i]
}

/// Draws the pixels `lo..hi` of row `y`, two characters per pixel.
fn shade_row(buffer: &[u8], width: usize, height: usize, y: usize, lo: usize, hi: usize) -> (row: String)
    requires
        lo <= hi <= width,
        y < height,
        width * height * 4 <= buffer@.len(),
    ensures
        row@ == spec_row(buffer@, width as int, y as int, lo as int, hi as int),
{
    let len = buffer.len();
    let mut row = String::new();
    let mut x = lo;
    while x < hi
        invariant
            lo <= x <= hi <= width,
            y < height,
            width * height * 4 <= buffer@.len(),
            len == buffer@.len(),
            row@ == spec_row(buffer@, width as int, y as int, lo as int, x as int),
        decreases hi - x,
    {
        proof {
            lemma_pixel_in_buffer(width as int, height as int, x as int, y as int);
        }
        let a = buffer[(y * width + x) * 4 + 3];
        let c = shade(a);
        push_char(&mut row, c);
        push_char(&mut row, c);
        x = x + 1;
        assert(row@ =~= spec_row(buffer@, width as int, y as int, lo as int, x as int));
    }
    row
}

/// The text preview of an RGBA buffer, cut into column chunks of `chunk_size`
/// pixels: one line per chunk and row, each pixel's alpha drawn as two palette
/// characters.
pub fn render_alpha_lines(width: usize, height: usize, buffer: &[u8], chunk_size: usize) -> (lines: Vec<String>)
    requires
        chunk_size > 0,
        width * height * 4 <= buffer@.len(),
    ensures
        lines@.len() == spec_render(buffer@, width as int, height as int, chunk_size as int).len(),
        forall|i: int|
            0 <= i < lines@.len() ==> #[trigger] lines@[i]@ == spec_render(
                buffer@,
                width as int,
                height as int,
                chunk_size as int,
            )[i],
{
    let ghost lines_spec = spec_render(buffer@, width as int, height as int, chunk_size as int);
    let num_chunk = width / chunk_size;
    let mut lines: Vec<String> = Vec::new();
    let mut z: usize = 0;
    while z < num_chunk
        invariant
            chunk_size > 0,
            width * height * 4 <= buffer@.len(),
            num_chunk == width / chunk_size,
            lines_spec == spec_render(buffer@, width as int, height as int, chunk_size as int),
            z <= num_chunk,
            lines@.len() == z * height,
            forall|i: int| 0 <= i < lines@.len() ==> #[trigger] lines@[i]@ == lines_spec[i],
        decreases num_chunk - z,
    {
        proof {
            lemma_chunk_bounds(width as int, chunk_size as int, z as int);
        }
        let lo = z * chunk_size;
        let hi = lo + chunk_size;
        let mut y = height;
        while y > 0
            invariant
                chunk_size > 0,
                width * height * 4 <= buffer@.len(),
                num_chunk == width / chunk_size,
                lines_spec == spec_render(buffer@, width as int, height as int, chunk_size as int),
                z < num_chunk,
                lo == z * chunk_size,
                hi == lo + chunk_size,
                hi <= width,
                y <= height,
                lines@.len() == z * height + (height - y),
                forall|i: int| 0 <= i < lines@.len() ==> #[trigger] lines@[i]@ == lines_spec[i],
            decreases y,
        {
            y = y - 1;
            let row = shade_row(buffer, width, height, y, lo, hi);
            proof {
                let i = z * height + (height - 1 - y);
                lemma_line_index(z as int, height as int, height - 1 - y);
                assert((z as int) * height + height <= (num_chunk as int) * height) by (nonlinear_arith)
                    requires
                        z < num_chunk,
                        height >= 0,
                ;
                assert(lines_spec[i] == row@);
            }
            lines.push(row);
        }
        proof {
            assert((z as int) * height + height == (z + 1) * height) by (nonlinear_arith);
        }
        z = z + 1;
    }
    proof {
        lemma_chunk_bounds(width as int, chunk_size as int, num_chunk as int);
    }
    let lo = num_chunk * chunk_size;
    let mut y = height;
    while y > 0
        invariant
            chunk_size > 0,
            width * height * 4 <= buffer@.len(),
            num_chunk == width / chunk_size,
            lines_spec == spec_render(buffer@, width as int, height as int, chunk_size as int),
            lo == num_chunk * chunk_size,
            lo <= width,
            y <= height,
            lines@.len() == num_chunk * height + (height - y),
            forall|i: int| 0 <= i < lines@.len() ==> #[trigger] lines@[i]@ == lines_spec[i],
        decreases y,
    {
        y = y - 1;
        let row = shade_row(buffer, width, height, y, lo, width);
        proof {
            let i = num_chunk * height + (height - 1 - y);
            assert(lines_spec[i] == row@);
        }
        lines.push(row);
    }
    lines
}

/// Every alpha byte has a palette character: the band width is rounded up, so
/// that even a fully opaque pixel stays inside the five-entry palette.
pub proof fn lemma_shade_in_palette(alpha: u8)
    ensures
        0 <= (alpha as int) / shade_band() < shade_palette().len(),
{
}

/// More coverage never gives a lighter character: the palette goes from
/// empty to full, and a larger alpha byte picks the same entry or a later one.
pub proof fn lemma_shade_monotone(a: u8, b: u8)
    requires
        a <= b,
    ensures
        (a as int) / shade_band() <= (b as int) / shade_band(),
{
}

/// The palette bands: alpha below 52 is blank, then `:`, `|`, `O`, and from
/// 208 on `W`.
pub proof fn lemma_shade_bands(alpha: u8)
    ensures
        alpha < 52 ==> spec_shade(alpha) == ' ',
        52 <= alpha < 104 ==> spec_shade(alpha) == ':',
        104 <= alpha < 156 ==> spec_shade(alpha) == '|',
        156 <= alpha < 208 ==> spec_shade(alpha) == 'O',
        208 <= alpha ==> spec_shade(alpha) == 'W',
{
}

/// A preview line draws each of its pixels, left to right, as two equal
/// characters: the shade of that pixel's alpha byte (byte 3 of the pixel).
pub proof fn lemma_row_pixels(buffer: Seq<u8>, width: int, y: int, lo: int, hi: int, k: int)
    requires
        lo <= hi,
        0 <= k < hi - lo,
    ensures
        spec_row(buffer, width, y, lo, hi).len() == 2 * (hi - lo),
        spec_row(buffer, width, y, lo, hi)[2 * k] == spec_shade(buffer[(y * width + lo + k) * 4 + 3]),
        spec_row(buffer, width, y, lo, hi)[2 * k + 1] == spec_shade(buffer[(y * width + lo + k) * 4 + 3]),
{
    assert((2 * k) / 2 == k);
    assert((2 * k + 1) / 2 == k);
}

/// The line of the preview that shows pixel `(x, y)`.
pub open spec fn spec_line_of(width: int, height: int, chunk: int, x: int, y: int) -> int {
    if x < spec_chunks(width, chunk) * chunk {
        (x / chunk) * height + (height - 1 - y)
    } else {
        spec_chunks(width, chunk) * height + (height - 1 - y)
    }
}

/// Line `i` of the preview shows pixel `(x, y)`.
pub open spec fn line_shows(width: int, height: int, chunk: int, i: int, x: int, y: int) -> bool {
    &&& spec_line_row(width, height, chunk, i) == y
    &&& spec_line_lo(width, height, chunk, i) <= x < spec_line_hi(width, height, chunk, i)
}

/// Every pixel of the buffer is shown by exactly one line of the preview,
/// for any chunk width: the chunks and the leftover columns split each row
/// without gaps or overlaps, and every row appears once per chunk.
pub proof fn lemma_each_pixel_shown_once(width: int, height: int, chunk: int, x: int, y: int)
    requires
        chunk > 0,
        0 <= x < width,
        0 <= y < height,
    ensures
        0 <= spec_line_of(width, height, chunk, x, y) < spec_line_count(width, height, chunk),
        forall|i: int|
            0 <= i < spec_line_count(width, height, chunk) ==> (#[trigger] line_shows(width, height, chunk, i, x, y)
                <==> i == spec_line_of(width, height, chunk, x, y)),
{
    let nc = spec_chunks(width, chunk);
    let k = height - 1 - y;
    vstd::arithmetic::div_mod::lemma_fundamental_div_mod(width, chunk);
    vstd::arithmetic::div_mod::lemma_fundamental_div_mod(x, chunk);
    vstd::arithmetic::div_mod::lemma_mod_bound(x, chunk);
    vstd::arithmetic::div_mod::lemma_mod_bound(width, chunk);
    vstd::arithmetic::div_mod::lemma_div_pos_is_pos(width, chunk);
    vstd::arithmetic::div_mod::lemma_div_pos_is_pos(x, chunk);
    let q = x / chunk;
    assert(q * chunk == chunk * q) by (nonlinear_arith);
    assert(nc * chunk == chunk * nc) by (nonlinear_arith);
    if x < nc * chunk {
        assert(q < nc) by (nonlinear_arith)
            requires
                q * chunk <= x,
                x < nc * chunk,
                chunk > 0,
        ;
        lemma_line_index(q, height, k);
        assert(q * height + height <= nc * height) by (nonlinear_arith)
            requires
                q < nc,
                height > 0,
        ;
    } else {
        assert(nc * height >= 0) by (nonlinear_arith)
            requires
                nc >= 0,
                height > 0,
        ;
    }
    assert forall|i: int| 0 <= i < spec_line_count(width, height, chunk) implies (#[trigger] line_shows(
        width,
        height,
        chunk,
        i,
        x,
        y,
    ) <==> i == spec_line_of(width, height, chunk, x, y)) by {
        if i < nc * height {
            vstd::arithmetic::div_mod::lemma_fundamental_div_mod(i, height);
            vstd::arithmetic::div_mod::lemma_mod_bound(i, height);
            vstd::arithmetic::div_mod::lemma_div_pos_is_pos(i, height);
            let z = i / height;
            assert(z * height == height * z) by (nonlinear_arith);
            assert(z < nc) by (nonlinear_arith)
                requires
                    z * height <= i,
                    i < nc * height,
                    height > 0,
            ;
            assert(z * chunk + chunk <= nc * chunk) by (nonlinear_arith)
                requires
                    z < nc,
                    chunk > 0,
            ;
            if line_shows(width, height, chunk, i, x, y) {
                vstd::arithmetic::div_mod::lemma_fundamental_div_mod_converse(x, chunk, z, x - z * chunk);
            }
            if i == spec_line_of(width, height, chunk, x, y) {
                if x >= nc * chunk {
                    assert(i >= nc * height);
                }
                lemma_line_index(q, height, k);
                assert(z == q);
            }
        } else {
            if i == spec_line_of(width, height, chunk, x, y) && x < nc * chunk {
                assert(false);
            }
        }
    }
}

/// Columns of each log line taken by the logger's own prefix.
pub const LOG_PREFIX_WIDTH: usize = 43;

/// Terminal width assumed when the terminal does not report one.
pub const DEFAULT_TERMINAL_WIDTH: usize = 176;

/// What `term_size::dimensions` can report: nothing, or a positive column
/// and row count that fit the terminal driver's 16-bit fields.
pub open spec fn possible_dimensions(dims: Option<(usize, usize)>) -> bool {
    match dims {
        Some((w, h)) => 0 < w <= 0xffff && 0 < h <= 0xffff,
        None => true,
    }
}

/// `term_size::dimensions`: the size of the terminal attached to stdout,
/// stdin or stderr (tried in that order), as `(columns, rows)`.
/// Trusted: `None` when none of them is a terminal, and otherwise both numbers
/// are positive 16-bit values (the source reads them from `winsize` and
/// returns `None` when either is 0). Which value comes back depends on the
/// environment and is left open.
#[verifier::external_body]
fn terminal_dimensions() -> (dims: Option<(usize, usize)>)
    ensures
        possible_dimensions(dims),
{
    term_size::dimensions()
}

/// Number of pixels per preview line for a terminal of the given size: the
/// columns left after the logger's prefix, halved because every pixel takes
/// two characters; `None` where the terminal is narrower than the prefix.
pub open spec fn spec_chunk_size_for(dims: Option<(usize, usize)>, default_val: usize) -> Option<usize> {
    let cols: usize = match dims {
        Some((w, _)) => w,
        None => default_val,
    };
    if cols >= LOG_PREFIX_WIDTH {
        Some(((cols - LOG_PREFIX_WIDTH) / 2) as usize)
    } else {
        None
    }
}

/// Pixels per preview line for the reported terminal size `dims`, falling back
/// to `default_val` columns where no size was reported.
pub fn chunk_size_for(dims: Option<(usize, usize)>, default_val: usize) -> (chunk: Option<usize>)
    ensures
        chunk == spec_chunk_size_for(dims, default_val),
{
    let cols = match dims {
        Some((w, _)) => w,
        None => default_val,
    };
    if cols >= LOG_PREFIX_WIDTH {
        Some((cols - LOG_PREFIX_WIDTH) / 2)
    } else {
        None
    }
}

/// Pixels per preview line for the terminal this process runs in.
pub fn calc_chunk_size(default_val: usize) -> (chunk: Option<usize>)
    ensures
        exists|dims: Option<(usize, usize)>|
            possible_dimensions(dims) && chunk == spec_chunk_size_for(dims, default_val),
{
    let dims = terminal_dimensions();
    chunk_size_for(dims, default_val)
}

/// The lines as character sequences.
pub open spec fn lines_view(lines: Seq<String>) -> Seq<Seq<char>> {
    lines.map_values(|s: String| s@)
}

/// The preview for a terminal of size `dims`: `None` where that terminal
/// leaves no room for a single pixel per line.
pub open spec fn spec_terminal_render(
    dims: Option<(usize, usize)>,
    width: int,
    height: int,
    buffer: Seq<u8>,
) -> Option<Seq<Seq<char>>> {
    match spec_chunk_size_for(dims, DEFAULT_TERMINAL_WIDTH) {
        Some(chunk) => if chunk > 0 {
            Some(spec_render(buffer, width, height, chunk as int))
        } else {
            None
        },
        None => None,
    }
}

pub open spec fn opt_lines_view(lines: Option<Vec<String>>) -> Option<Seq<Seq<char>>> {
    match lines {
        Some(ls) => Some(lines_view(ls@)),
        None => None,
    }
}

/// The text preview of the alpha channel of a `width` x `height` RGBA buffer,
/// for a terminal of size `dims` (see `spec_terminal_render`).
pub fn terminal_render_for(dims: Option<(usize, usize)>, width: usize, height: usize, buffer: &[u8]) -> (lines: Option<Vec<String>>)
    requires
        width * height * 4 <= buffer@.len(),
    ensures
        opt_lines_view(lines) == spec_terminal_render(dims, width as int, height as int, buffer@),
{
    match chunk_size_for(dims, DEFAULT_TERMINAL_WIDTH) {
        Some(chunk) => {
            if chunk > 0 {
                let lines = render_alpha_lines(width, height, buffer, chunk);
                assert(lines_view(lines@) =~= spec_render(buffer@, width as int, height as int, chunk as int));
                Some(lines)
            } else {
                None
            }
        },
        None => None,
    }
}

/// The text preview of the alpha channel of a `width` x `height` RGBA buffer,
/// laid out for the terminal this process runs in. The caller logs the lines
/// in order, after a line saying `alpha channel:`.
pub fn terminal_render(width: usize, height: usize, buffer: &[u8]) -> (lines: Option<Vec<String>>)
    requires
        width * height * 4 <= buffer@.len(),
    ensures
        exists|dims: Option<(usize, usize)>|
            possible_dimensions(dims) && opt_lines_view(lines) == spec_terminal_render(
                dims,
                width as int,
                height as int,
                buffer@,
            ),
{
    let dims = terminal_dimensions();
    terminal_render_for(dims, width, height, buffer)
}

} // verus!
