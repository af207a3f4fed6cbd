//! The glyph table: 8x8 monochrome bitmaps for the characters of Basic Latin,
//! taken from the `font8x8` crate.
//!
//! A glyph is eight rows of eight bits. Bit `gx` of row `gy` (counting from
//! the least significant bit) is the dot at horizontal offset `gx` of that
//! row, which is the convention of the font table itself.

use font8x8::{UnicodeFonts, BASIC_FONTS};
use vstd::prelude::*;

verus! {

/// The bitmap that the basic font table holds for `c`: eight rows, top to
/// bottom. `None` for a character that the table does not cover.
pub uninterp spec fn basic_glyph(c: char) -> Option<Seq<u8>>;

/// Whether the dot at column `gx` of row `gy` of a glyph is set.
pub open spec fn glyph_bit(glyph: Seq<u8>, gx: int, gy: int) -> bool {
    0 <= gx < 8 && 0 <= gy < 8 && (glyph[gy] & (1u8 << (gx as u8))) != 0
}

/// Looks `c` up in the basic font table, by `font8x8`'s
/// `BASIC_FONTS.get(c)`.
///
/// Trusted, not proved: the lookup depends on `c` alone, so its result is the
/// named `basic_glyph(c)`; and the table holds a glyph for exactly the 128
/// characters `U+0000` to `U+007F`.
#[verifier::external_body]
pub(crate) fn lookup_glyph(c: char) -> (glyph: Option<[u8; 8]>)
    ensures
        match glyph {
            Some(rows) => basic_glyph(c) == Some(rows@),
            None => basic_glyph(c) is None,
        },
        glyph is Some <==> (c as u32) < 0x80,
{
    BASIC_FONTS.get(c)
}

/// Reads one dot of a glyph.
pub(crate) fn glyph_dot(glyph: &[u8; 8], gx: usize, gy: usize) -> (set: bool)
    requires
        gx < 8,
        gy < 8,
    ensures
        set == glyph_bit(glyph@, gx as int, gy as int),
{
    (glyph[gy] & (1u8 << (gx as u8))) != 0
}

} // verus!
