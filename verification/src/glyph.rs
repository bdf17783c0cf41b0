//! The shaped glyph record and the constants of the overline mark.

use vstd::prelude::*;

verus! {

/// The combining overline. In a numeral it marks the letter that follows as
/// worth a thousand times its plain value.
pub const OVERLINE: u32 = 0x305;

/// How far an overline is lifted above the baseline, in font units.
pub const OVERLINE_RISE: i32 = 130;

/// One shaped glyph.
///
/// Until it is resolved against a font, `codepoint` is a Unicode scalar
/// value; afterwards it is the font's own glyph index.
#[derive(Clone, Copy, Debug, PartialEq, Eq, Structural)]
pub struct Glyph {
    pub codepoint: u32,
    pub cluster: u32,
    pub x_advance: i32,
    pub y_advance: i32,
    pub x_offset: i32,
    pub y_offset: i32,
    pub flags: u32,
}

impl Glyph {
    /// The glyph that a numeral character starts out as: a codepoint and a
    /// cluster, no flags, and no metrics yet.
    pub open spec fn plain(codepoint: u32, cluster: u32) -> Glyph {
        Glyph {
            codepoint,
            cluster,
            x_advance: 0,
            y_advance: 0,
            x_offset: 0,
            y_offset: 0,
            flags: 0,
        }
    }

    /// Whether this glyph still stands for the overline mark.
    pub open spec fn is_overline(self) -> bool {
        self.codepoint == OVERLINE
    }

    /// A glyph with the given codepoint and cluster and everything else zero.
    pub fn new(codepoint: u32, cluster: u32) -> (glyph: Glyph)
        ensures
            glyph == Glyph::plain(codepoint, cluster),
    {
        Glyph { codepoint, cluster, x_advance: 0, y_advance: 0, x_offset: 0, y_offset: 0, flags: 0 }
    }
}

} // verus!
