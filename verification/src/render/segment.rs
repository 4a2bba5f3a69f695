use vstd::prelude::*;

use unicode_segmentation::UnicodeSegmentation;

verus! {

/// The grapheme clusters of `text` as Unicode Standard Annex #29 splits it,
/// extended clusters where `is_extended` holds, legacy ones otherwise.
pub uninterp spec fn spec_graphemes(text: Seq<char>, is_extended: bool) -> Seq<Seq<char>>;

/// `UnicodeSegmentation::graphemes` from `unicode-segmentation`, collected.
/// Trusted: the clusters are `spec_graphemes(text@, is_extended)`, and none of
/// them is empty (the iterator yields `&text[start..next]` for successive
/// boundaries `start < next`).
#[verifier::external_body]
fn graphemes<'a>(text: &'a str, is_extended: bool) -> (clusters: Vec<&'a str>)
    ensures
        clusters@.map_values(|g: &str| g@) == spec_graphemes(text@, is_extended),
        forall|i: int| 0 <= i < clusters@.len() ==> (#[trigger] clusters@[i])@.len() > 0,
{
    UnicodeSegmentation::graphemes(text, is_extended).collect()
}

/// The first character of each extended grapheme cluster of `text`: the
/// characters the glyph atlas holds a glyph for.
pub fn atlas_chars(text: &str) -> (chars: Vec<char>)
    ensures
        chars@.len() == spec_graphemes(text@, true).len(),
        forall|i: int| 0 <= i < chars@.len() ==> #[trigger] chars@[i] == spec_graphemes(text@, true)[i][0],
{
    let clusters = graphemes(text, true);
    let ghost views = clusters@.map_values(|g: &str| g@);
    let mut chars: Vec<char> = Vec::new();
    let mut i: usize = 0;
    while i < clusters.len()
        invariant
            i <= clusters@.len(),
            views == clusters@.map_values(|g: &str| g@),
            views == spec_graphemes(text@, true),
            forall|k: int| 0 <= k < clusters@.len() ==> (#[trigger] clusters@[k])@.len() > 0,
            chars@.len() == i,
            forall|k: int| 0 <= k < i ==> #[trigger] chars@[k] == views[k][0],
        decreases clusters@.len() - i,
    {
        let g: &str = clusters[i];
        assert(g@.len() > 0);
        let c = g.get_char(0);
        assert(views[i as int] == g@);
        chars.push(c);
        i = i + 1;
    }
    chars
}

} // verus!
