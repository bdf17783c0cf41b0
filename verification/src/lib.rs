//! Roman numerals for shaped text.
//!
//! A run of ASCII digit glyphs is read as one decimal number and replaced by
//! the glyphs of its Roman numeral. Values of 4000 and more use the vinculum:
//! a letter under an overline counts a thousandfold.
//!
//! [`shape`] rewrites a glyph sequence, and a [`Resolver`] then fits the
//! result to a font: it asks for a glyph index and an advance for each glyph,
//! and whoever holds the font answers.

pub mod digits;
pub mod glyph;
pub mod reading;
pub mod render;
pub mod resolve;
pub mod roman;
pub mod scan;

pub use digits::{checked_digits_to_number, digits_to_number, unicode_codepoint_to_number};
pub use glyph::{Glyph, OVERLINE, OVERLINE_RISE};
pub use render::string_to_glyphs;
pub use resolve::{Query, Resolver};
pub use roman::number_to_roman_numeral;
pub use scan::{checked_shape, digit_runs_fit, process_digits, shape};
