use vstd::prelude::*;

verus! {

/// Number of `true` flags among the first `k`.
pub open spec fn spec_count(flags: Seq<bool>, k: int) -> int
    decreases k,
{
    if k <= 0 {
        0
    } else {
        spec_count(flags, k - 1) + if flags[k - 1] {
            1int
        } else {
            0int
        }
    }
}

/// Corner of a glyph quad used at position `i` of its six indices: the
/// triangles (top left, top right, bottom left) and (bottom left, top right,
/// bottom right), corners numbered bottom left, top left, top right, bottom right.
pub open spec fn glyph_corner(i: int) -> int {
    if i == 0 {
        1
    } else if i == 1 {
        2
    } else if i == 2 {
        0
    } else if i == 3 {
        0
    } else if i == 4 {
        2
    } else {
        3
    }
}

/// Index list for `count` glyph quads whose four vertices each are stored one
/// quad after the other.
pub open spec fn spec_glyph_indices(count: int) -> Seq<u32> {
    Seq::new((6 * count) as nat, |i: int| (4 * (i / 6) + glyph_corner(i % 6)) as u32)
}

/// The six indices of quad `q` in a triangle index list.
pub open spec fn quad_at(indices: Seq<u32>, q: int) -> Seq<u32> {
    indices.subrange(6 * q, 6 * q + 6)
}

/// The six indices of the `q`-th glyph quad: triangles (top left, top right,
/// bottom left) and (bottom left, top right, bottom right) over its vertices
/// `4q` (bottom left), `4q + 1` (top left), `4q + 2` (top right) and
/// `4q + 3` (bottom right).
pub open spec fn glyph_quad(q: int) -> Seq<u32> {
    seq![(4 * q + 1) as u32, (4 * q + 2) as u32, (4 * q) as u32, (4 * q) as u32, (4 * q + 2) as u32, (4 * q + 3) as u32]
}

/// The six indices of the `q`-th cursor quad: triangles (0, 1, 2) and
/// (0, 2, 3) over its vertices `4q .. 4q + 4`, each cut to 32 bits.
pub open spec fn cursor_quad(q: int) -> Seq<u32> {
    seq![(4 * q) as u32, (4 * q + 1) as u32, (4 * q + 2) as u32, (4 * q) as u32, (4 * q + 2) as u32, (4 * q + 3) as u32]
}

/// Every glyph quad of the index list gets the same two triangles, shifted
/// to its own four vertices, and they use all four corners.
pub proof fn lemma_glyph_indices_quads(count: int, q: int)
    requires
        0 <= q < count,
    ensures
        spec_glyph_indices(count).len() == 6 * count,
        quad_at(spec_glyph_indices(count), q) == glyph_quad(q),
{
    let s = spec_glyph_indices(count);
    assert forall|k: int| 0 <= k < 6 implies #[trigger] quad_at(s, q)[k] == glyph_quad(q)[k] by {
        lemma_quad_group(q, k);
    }
    assert(quad_at(s, q) =~= glyph_quad(q));
}

/// Every cursor quad of the index list names its own four vertices.
pub proof fn lemma_cursor_indices_quads(count: int, q: int)
    requires
        0 <= q < count,
    ensures
        spec_cursor_indices(count).len() == 6 * count,
        quad_at(spec_cursor_indices(count), q) == cursor_quad(q),
{
    let s = spec_cursor_indices(count);
    assert forall|k: int| 0 <= k < 6 implies #[trigger] quad_at(s, q)[k] == cursor_quad(q)[k] by {
        lemma_quad_group(q, k);
    }
    assert(quad_at(s, q) =~= cursor_quad(q));
}

proof fn lemma_quad_group(k: int, i: int)
    requires
        0 <= k,
        0 <= i < 6,
    ensures
        (6 * k + i) / 6 == k,
        (6 * k + i) % 6 == i,
{
    vstd::arithmetic::div_mod::lemma_fundamental_div_mod_converse(6 * k + i, 6, k, i);
}

/// The triangle index list for the glyphs of a frame: two triangles per glyph
/// that is drawn (`drawn[j]`), over the four vertices that each drawn glyph
/// adds to the vertex list.
pub fn glyph_quad_indices(drawn: &Vec<bool>) -> (indices: Vec<u32>)
    requires
        4 * spec_count(drawn@, drawn@.len() as int) <= u32::MAX,
    ensures
        indices@ == spec_glyph_indices(spec_count(drawn@, drawn@.len() as int)),
        indices@.len() == 6 * spec_count(drawn@, drawn@.len() as int),
        forall|q: int|
            0 <= q < spec_count(drawn@, drawn@.len() as int) ==> #[trigger] quad_at(indices@, q) == glyph_quad(q),
{
    let mut indices: Vec<u32> = Vec::new();
    let mut index: u32 = 0;
    let mut j: usize = 0;
    while j < drawn.len()
        invariant
            j <= drawn@.len(),
            4 * spec_count(drawn@, drawn@.len() as int) <= u32::MAX,
            index == 4 * spec_count(drawn@, j as int),
            indices@ == spec_glyph_indices(spec_count(drawn@, j as int)),
        decreases drawn@.len() - j,
    {
        proof {
            lemma_count_mono(drawn@, j + 1, drawn@.len() as int);
        }
        if drawn[j] {
            let ghost k = spec_count(drawn@, j as int);
            indices.push(index + 1);
            indices.push(index + 2);
            indices.push(index);
            indices.push(index);
            indices.push(index + 2);
            indices.push(index + 3);
            index = index + 4;
            proof {
                assert forall|i: int| 0 <= i < 6 * (k + 1) implies #[trigger] indices@[i] == spec_glyph_indices(
                    k + 1,
                )[i] by {
                    if i >= 6 * k {
                        lemma_quad_group(k, i - 6 * k);
                    }
                }
                assert(indices@ =~= spec_glyph_indices(k + 1));
            }
        }
        j = j + 1;
    }
    proof {
        let count = spec_count(drawn@, drawn@.len() as int);
        assert forall|q: int| 0 <= q < count implies #[trigger] quad_at(indices@, q) == glyph_quad(q) by {
            lemma_glyph_indices_quads(count, q);
        }
    }
    indices
}

proof fn lemma_count_mono(flags: Seq<bool>, i: int, k: int)
    requires
        0 <= i <= k,
    ensures
        0 <= spec_count(flags, i) <= spec_count(flags, k),
    decreases k,
{
    if k > i {
        lemma_count_mono(flags, i, k - 1);
    } else if k > 0 {
        lemma_count_mono(flags, 0, k - 1);
    }
}

/// Each index of the glyph triangle list names a vertex of its own glyph's
/// quad (the four vertices `4 * q .. 4 * q + 4` for the `q`-th drawn glyph),
/// so no index goes past the vertex list.
pub proof fn lemma_glyph_indices_in_quad(count: int, i: int)
    requires
        0 <= i < 6 * count,
        4 * count <= u32::MAX,
    ensures
        4 * (i / 6) <= spec_glyph_indices(count)[i] < 4 * (i / 6) + 4,
        spec_glyph_indices(count)[i] < 4 * count,
{
    vstd::arithmetic::div_mod::lemma_fundamental_div_mod(i, 6);
    vstd::arithmetic::div_mod::lemma_mod_bound(i, 6);
    assert(i / 6 < count);
}

/// Offsets, from `start`, of the cursors among the first `k` whose grapheme
/// index lies in `start..end`, in order.
pub open spec fn spec_visible_cursors(cursors: Seq<usize>, start: int, end: int, k: int) -> Seq<usize>
    decreases k,
{
    if k <= 0 {
        seq![]
    } else {
        let prev = spec_visible_cursors(cursors, start, end, k - 1);
        let c = cursors[k - 1];
        if start <= c < end {
            prev.push((c - start) as usize)
        } else {
            prev
        }
    }
}

/// Every cursor that is drawn has a grapheme position in the frame: its
/// offset is below `end - start`, and no more cursors are drawn than there are.
pub proof fn lemma_visible_cursors_in_frame(cursors: Seq<usize>, start: int, end: int, k: int)
    requires
        0 <= k <= cursors.len(),
    ensures
        spec_visible_cursors(cursors, start, end, k).len() <= k,
        forall|i: int|
            0 <= i < spec_visible_cursors(cursors, start, end, k).len() ==> #[trigger] spec_visible_cursors(
                cursors,
                start,
                end,
                k,
            )[i] < end - start,
    decreases k,
{
    if k > 0 {
        lemma_visible_cursors_in_frame(cursors, start, end, k - 1);
    }
}

/// Corner of a cursor quad used at position `i` of its six indices: the
/// triangles (0, 1, 2) and (0, 2, 3).
pub open spec fn cursor_corner(i: int) -> int {
    if i == 0 {
        0
    } else if i == 1 {
        1
    } else if i == 2 {
        2
    } else if i == 3 {
        0
    } else if i == 4 {
        2
    } else {
        3
    }
}

/// Index list for `count` cursor quads; each index is the vertex number cut
/// to 32 bits.
pub open spec fn spec_cursor_indices(count: int) -> Seq<u32> {
    Seq::new((6 * count) as nat, |i: int| (4 * (i / 6) + cursor_corner(i % 6)) as u32)
}

/// The cursors to draw in a frame that shows the graphemes `start..end`:
/// for each cursor at a grapheme index in that range, in order, its offset
/// into the frame's grapheme positions; and the triangle index list for one
/// quad per such cursor.
pub fn cursor_quads(cursors: &Vec<usize>, start: usize, end: usize) -> (quads: (Vec<usize>, Vec<u32>))
    requires
        4 * cursors@.len() + 3 <= usize::MAX,
    ensures
        quads.0@ == spec_visible_cursors(cursors@, start as int, end as int, cursors@.len() as int),
        quads.1@ == spec_cursor_indices(quads.0@.len() as int),
        quads.1@.len() == 6 * quads.0@.len(),
        forall|q: int| 0 <= q < quads.0@.len() ==> #[trigger] quad_at(quads.1@, q) == cursor_quad(q),
{
    let mut offsets: Vec<usize> = Vec::new();
    let mut triangles: Vec<u32> = Vec::new();
    let mut j: usize = 0;
    while j < cursors.len()
        invariant
            j <= cursors@.len(),
            4 * cursors@.len() + 3 <= usize::MAX,
            offsets@ == spec_visible_cursors(cursors@, start as int, end as int, j as int),
            offsets@.len() <= j,
            triangles@ == spec_cursor_indices(offsets@.len() as int),
        decreases cursors@.len() - j,
    {
        let c = cursors[j];
        if start <= c && c < end {
            let ghost k = offsets@.len() as int;
            let index = offsets.len() * 4;
            offsets.push(c - start);
            triangles.push(#[verifier::truncate] (index as u32));
            triangles.push(#[verifier::truncate] ((index + 1) as u32));
            triangles.push(#[verifier::truncate] ((index + 2) as u32));
            triangles.push(#[verifier::truncate] (index as u32));
            triangles.push(#[verifier::truncate] ((index + 2) as u32));
            triangles.push(#[verifier::truncate] ((index + 3) as u32));
            proof {
                assert forall|i: int| 0 <= i < 6 * (k + 1) implies #[trigger] triangles@[i] == spec_cursor_indices(
                    k + 1,
                )[i] by {
                    if i >= 6 * k {
                        lemma_quad_group(k, i - 6 * k);
                    }
                }
                assert(triangles@ =~= spec_cursor_indices(k + 1));
            }
        }
        j = j + 1;
    }
    proof {
        let count = offsets@.len() as int;
        assert forall|q: int| 0 <= q < count implies #[trigger] quad_at(triangles@, q) == cursor_quad(q) by {
            lemma_cursor_indices_quads(count, q);
        }
    }
    (offsets, triangles)
}

} // verus!
