//! Core of a logographic input method: a dictionary of spelling -> glyph
//! entries is compiled into an immutable lookup `Schema`; typed letters are
//! segmented against it by greedy longest match; punctuation is remapped by
//! table; and a finished glyph sequence gets a script-specific visual
//! combination pass (wrapping regions and negation brackets).

pub mod engine;
pub mod long_glyph;
pub mod schema;
