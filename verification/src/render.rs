//! From a numeral's characters to glyphs.

use vstd::prelude::*;
use crate::glyph::{Glyph, OVERLINE};

verus! {

/// The cluster that stands for a position in the numeral. Clusters are 32
/// bits wide, so positions from 2^32 on start again at zero.
pub open spec fn cluster_at(position: int) -> u32 {
    (position % 0x1_0000_0000) as u32
}

/// The glyph for the character at position `i` of `text`.
///
/// An underscore becomes the overline mark and takes the cluster of the
/// letter after it, so that a cursor lands on the letter and not on the mark.
/// Any other character keeps its scalar value and its own position.
pub open spec fn glyph_at(text: Seq<char>, i: int) -> Glyph {
    if text[i] == '_' {
        Glyph::plain(OVERLINE, cluster_at(i + 1))
    } else {
        Glyph::plain(text[i] as u32, cluster_at(i))
    }
}

/// The glyphs of `text`, one for each character and in the same order.
pub open spec fn rendered(text: Seq<char>) -> Seq<Glyph> {
    Seq::new(text.len(), |i: int| glyph_at(text, i))
}

/// An overline glyph carries the cluster of the glyph after it, and that
/// glyph, where it is no overline itself, stands for the character after the
/// underscore.
pub proof fn lemma_overline_shares_cluster(text: Seq<char>, i: int)
    requires
        0 <= i < text.len() - 1,
        text[i] == '_',
        text[i + 1] != '_',
    ensures
        rendered(text)[i].codepoint == OVERLINE,
        rendered(text)[i + 1].codepoint == text[i + 1] as u32,
        rendered(text)[i].cluster == rendered(text)[i + 1].cluster,
        i + 1 <= u32::MAX ==> rendered(text)[i].cluster == i + 1,
{
}

/// A text of fewer than 2^32 characters is rendered with the position of
/// each character as its cluster, but for the overlines.
pub proof fn lemma_clusters_are_positions(text: Seq<char>, i: int)
    requires
        0 <= i < text.len() <= u32::MAX,
    ensures
        rendered(text)[i].cluster == if text[i] == '_' {
            i + 1
        } else {
            i
        },
{
}

/// Renders a numeral as glyphs that carry no metrics yet.
pub fn string_to_glyphs(string: &str) -> (glyphs: Vec<Glyph>)
    ensures
        glyphs@ == rendered(string@),
{
    let mut glyphs: Vec<Glyph> = Vec::new();
    let mut index: u32 = 0;
    for c in it: string.chars()
        invariant
            glyphs@.len() == it.index(),
            index == cluster_at(it.index() as int),
            it.seq() == string@,
            forall|j: int| 0 <= j < glyphs@.len() ==> glyphs@[j] == glyph_at(string@, j),
    {
        let next = index.wrapping_add(1);
        let glyph = if c == '_' {
            Glyph::new(OVERLINE, next)
        } else {
            Glyph::new(c as u32, index)
        };
        glyphs.push(glyph);
        index = next;
    }
    glyphs
}

} // verus!
