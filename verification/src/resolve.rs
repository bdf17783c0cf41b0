//! Resolving glyphs against a font, one question at a time.
//!
//! The resolver never calls a font. It says what it needs to know next, takes
//! the answer, and goes on; whoever holds the font asks it.

use vstd::prelude::*;
use crate::glyph::{Glyph, OVERLINE, OVERLINE_RISE};
use crate::scan::{is_digit, lemma_shaped_without_digits, shaped};

verus! {

/// What a resolver needs to know from the font next.
#[derive(Clone, Copy, Debug, PartialEq, Eq, Structural)]
pub enum Query {
    /// The font's glyph for a codepoint under a variation selector.
    Glyph { codepoint: u32, selector: u32 },
    /// The horizontal advance of one of the font's glyphs.
    Advance { glyph: u32 },
    /// Nothing more: every glyph is resolved.
    Done,
}

/// A glyph after resolution, where the font gave `index` for its codepoint
/// and `advance` for the advance of that glyph.
///
/// The codepoint becomes the font's glyph index. An overline does not move
/// the pen, so that the letter after it is drawn beneath it, and is lifted
/// above the baseline. Any other glyph moves the pen by the font's advance
/// and sits on the baseline. Cluster, flags, vertical advance and horizontal
/// offset stay as they are.
pub open spec fn resolved(glyph: Glyph, index: u32, advance: i32) -> Glyph {
    Glyph {
        codepoint: index,
        x_advance: if glyph.is_overline() {
            0
        } else {
            advance
        },
        y_offset: if glyph.is_overline() {
            OVERLINE_RISE
        } else {
            0
        },
        ..glyph
    }
}

/// How far a resolver has come.
///
/// The glyphs before `position` are resolved and those after it are not.
/// With `awaiting_advance`, the glyph at `position` has its glyph index
/// already and lacks its advance.
pub struct Progress {
    pub glyphs: Seq<Glyph>,
    pub position: nat,
    pub awaiting_advance: bool,
}

impl Progress {
    /// Nothing resolved yet.
    pub open spec fn start(glyphs: Seq<Glyph>) -> Progress {
        Progress { glyphs, position: 0, awaiting_advance: false }
    }

    /// The position lies within the glyphs, and an advance is awaited only
    /// for a glyph that is there.
    pub open spec fn wf(self) -> bool {
        &&& self.position <= self.glyphs.len()
        &&& self.awaiting_advance ==> self.position < self.glyphs.len()
    }

    /// The question that is open in this state.
    pub open spec fn query(self) -> Query {
        if self.position >= self.glyphs.len() {
            Query::Done
        } else if self.awaiting_advance {
            Query::Advance { glyph: self.glyphs[self.position as int].codepoint }
        } else {
            Query::Glyph { codepoint: self.glyphs[self.position as int].codepoint, selector: 0 }
        }
    }

    /// The state after the font gave `index` for the codepoint asked for.
    ///
    /// An overline is then done, for its advance is not the font's to give.
    /// Any other glyph takes the index and waits for its advance.
    pub open spec fn with_glyph(self, index: u32) -> Progress {
        let glyph = self.glyphs[self.position as int];
        if glyph.is_overline() {
            Progress {
                glyphs: self.glyphs.update(self.position as int, resolved(glyph, index, 0)),
                position: self.position + 1,
                awaiting_advance: false,
            }
        } else {
            Progress {
                glyphs: self.glyphs.update(self.position as int, Glyph { codepoint: index, ..glyph }),
                position: self.position,
                awaiting_advance: true,
            }
        }
    }

    /// The state after the font gave `advance` for the glyph asked for.
    pub open spec fn with_advance(self, advance: i32) -> Progress {
        let glyph = self.glyphs[self.position as int];
        Progress {
            glyphs: self.glyphs.update(
                self.position as int,
                Glyph { x_advance: advance, y_offset: 0, ..glyph },
            ),
            position: self.position + 1,
            awaiting_advance: false,
        }
    }

    /// Where this state ends up when every open question is answered by a
    /// font that maps a codepoint and selector to the glyph `glyph_of` and a
    /// glyph to the advance `advance_of`.
    pub open spec fn driven(
        self,
        glyph_of: spec_fn(u32, u32) -> u32,
        advance_of: spec_fn(u32) -> i32,
    ) -> Progress
        decreases
                self.glyphs.len() - self.position,
                if self.awaiting_advance {
                    0int
                } else {
                    1int
                },
    {
        match self.query() {
            Query::Glyph { codepoint, selector } => self.with_glyph(
                glyph_of(codepoint, selector),
            ).driven(glyph_of, advance_of),
            Query::Advance { glyph } => self.with_advance(advance_of(glyph)).driven(
                glyph_of,
                advance_of,
            ),
            Query::Done => self,
        }
    }
}

/// A glyph as a font resolves it: the font's glyph for the codepoint with
/// no variation selector, and the advance of that glyph.
pub open spec fn resolved_by(
    glyph: Glyph,
    glyph_of: spec_fn(u32, u32) -> u32,
    advance_of: spec_fn(u32) -> i32,
) -> Glyph {
    resolved(glyph, glyph_of(glyph.codepoint, 0), advance_of(glyph_of(glyph.codepoint, 0)))
}

/// An answer to the open question leads from one well-formed state to
/// another.
pub proof fn lemma_answers_keep_wf(progress: Progress, index: u32, advance: i32)
    requires
        progress.wf(),
    ensures
        progress.query() is Glyph ==> progress.with_glyph(index).wf(),
        progress.query() is Advance ==> progress.with_advance(advance).wf(),
{
}

/// Resolution changes nothing of a glyph but its codepoint, its horizontal
/// advance and its vertical offset.
pub proof fn lemma_resolved_keeps(glyph: Glyph, index: u32, advance: i32)
    ensures
        resolved(glyph, index, advance).cluster == glyph.cluster,
        resolved(glyph, index, advance).flags == glyph.flags,
        resolved(glyph, index, advance).y_advance == glyph.y_advance,
        resolved(glyph, index, advance).x_offset == glyph.x_offset,
{
}

/// Asking a font every question in turn resolves each glyph by itself:
/// the outcome has the same number of glyphs, and each is the glyph that was
/// there, as the font resolves it.
pub proof fn lemma_driven_resolves_each(
    glyphs: Seq<Glyph>,
    glyph_of: spec_fn(u32, u32) -> u32,
    advance_of: spec_fn(u32) -> i32,
)
    ensures
        Progress::start(glyphs).driven(glyph_of, advance_of).query() == Query::Done,
        Progress::start(glyphs).driven(glyph_of, advance_of).glyphs == Seq::new(
            glyphs.len(),
            |i: int| resolved_by(glyphs[i], glyph_of, advance_of),
        ),
{
    lemma_driven_from(Progress::start(glyphs), glyph_of, advance_of);
}

/// Glyphs among which there is no digit go through shaping and resolution
/// one for one: as many come out as went in, each resolved by the font and
/// otherwise as it was, with its cluster and its flags.
pub proof fn lemma_text_without_digits(
    glyphs: Seq<Glyph>,
    glyph_of: spec_fn(u32, u32) -> u32,
    advance_of: spec_fn(u32) -> i32,
)
    requires
        forall|i: int| 0 <= i < glyphs.len() ==> !is_digit(#[trigger] glyphs[i]),
    ensures
        ({
            let out = Progress::start(shaped(glyphs)).driven(glyph_of, advance_of).glyphs;
            &&& out.len() == glyphs.len()
            &&& forall|i: int|
                0 <= i < glyphs.len() ==> {
                    &&& #[trigger] out[i] == resolved_by(glyphs[i], glyph_of, advance_of)
                    &&& out[i].cluster == glyphs[i].cluster
                    &&& out[i].flags == glyphs[i].flags
                    &&& out[i].y_advance == glyphs[i].y_advance
                    &&& out[i].x_offset == glyphs[i].x_offset
                }
        }),
{
    lemma_shaped_without_digits(glyphs);
    lemma_driven_resolves_each(glyphs, glyph_of, advance_of);
}

/// From any state on: what is resolved stays, the glyph in hand is
/// finished, and what is left is resolved glyph by glyph.
proof fn lemma_driven_from(
    progress: Progress,
    glyph_of: spec_fn(u32, u32) -> u32,
    advance_of: spec_fn(u32) -> i32,
)
    requires
        progress.wf(),
    ensures
        ({
            let end = progress.driven(glyph_of, advance_of);
            let at = progress.position as int;
            &&& end.query() == Query::Done
            &&& end.glyphs.len() == progress.glyphs.len()
            &&& forall|i: int| 0 <= i < at ==> end.glyphs[i] == progress.glyphs[i]
            &&& forall|i: int|
                at < i < progress.glyphs.len() ==> end.glyphs[i] == resolved_by(
                    progress.glyphs[i],
                    glyph_of,
                    advance_of,
                )
            &&& at < progress.glyphs.len() ==> end.glyphs[at] == if progress.awaiting_advance {
                Glyph {
                    x_advance: advance_of(progress.glyphs[at].codepoint),
                    y_offset: 0,
                    ..progress.glyphs[at]
                }
            } else {
                resolved_by(progress.glyphs[at], glyph_of, advance_of)
            }
        }),
    decreases
            progress.glyphs.len() - progress.position,
            if progress.awaiting_advance {
                0int
            } else {
                1int
            },
{
    match progress.query() {
        Query::Glyph { codepoint, selector } => {
            lemma_driven_from(
                progress.with_glyph(glyph_of(codepoint, selector)),
                glyph_of,
                advance_of,
            );
        },
        Query::Advance { glyph } => {
            lemma_driven_from(progress.with_advance(advance_of(glyph)), glyph_of, advance_of);
        },
        Query::Done => {},
    }
}

/// Resolves a glyph sequence in place, from the first glyph to the last.
pub struct Resolver {
    glyphs: Vec<Glyph>,
    position: usize,
    awaiting_advance: bool,
}

impl View for Resolver {
    type V = Progress;

    closed spec fn view(&self) -> Progress {
        Progress {
            glyphs: self.glyphs@,
            position: self.position as nat,
            awaiting_advance: self.awaiting_advance,
        }
    }
}

impl Resolver {
    /// A resolver for `glyphs`, with none of them resolved.
    pub fn new(glyphs: Vec<Glyph>) -> (resolver: Resolver)
        ensures
            resolver@ == Progress::start(glyphs@),
    {
        Resolver { glyphs, position: 0, awaiting_advance: false }
    }

    /// What the font is to be asked next.
    pub fn query(&self) -> (query: Query)
        ensures
            query == self@.query(),
    {
        if self.position >= self.glyphs.len() {
            Query::Done
        } else if self.awaiting_advance {
            Query::Advance { glyph: self.glyphs[self.position].codepoint }
        } else {
            Query::Glyph { codepoint: self.glyphs[self.position].codepoint, selector: 0 }
        }
    }

    /// Takes the font's answer to a `Query::Glyph`.
    pub fn answer_glyph(&mut self, index: u32)
        requires
            old(self)@.query() is Glyph,
        ensures
            final(self)@ == old(self)@.with_glyph(index),
    {
        assert(self.position < self.glyphs.len());
        let glyph = self.glyphs[self.position];
        if glyph.codepoint == OVERLINE {
            self.glyphs.set(
                self.position,
                Glyph { codepoint: index, x_advance: 0, y_offset: OVERLINE_RISE, ..glyph },
            );
            self.position += 1;
        } else {
            self.glyphs.set(self.position, Glyph { codepoint: index, ..glyph });
            self.awaiting_advance = true;
        }
    }

    /// Takes the font's answer to a `Query::Advance`.
    pub fn answer_advance(&mut self, advance: i32)
        requires
            old(self)@.query() is Advance,
        ensures
            final(self)@ == old(self)@.with_advance(advance),
    {
        assert(self.position < self.glyphs.len());
        let glyph = self.glyphs[self.position];
        self.glyphs.set(self.position, Glyph { x_advance: advance, y_offset: 0, ..glyph });
        self.awaiting_advance = false;
        self.position += 1;
    }

    /// The glyphs as they now are.
    pub fn into_glyphs(self) -> (glyphs: Vec<Glyph>)
        ensures
            glyphs@ == self@.glyphs,
    {
        self.glyphs
    }
}

} // verus!
