//! Finding the glyph of a character in a font.

use vstd::prelude::*;

verus! {

/// The number of character codes that a font maps to glyphs: those of the
/// basic multilingual plane.
pub const MAPPED_CHAR_CODES: usize = 0x1_0000;

/// The glyph of a character, by the font's map from character codes to
/// glyphs: a character of the basic multilingual plane has the glyph that
/// the map gives for its code, another character has none.
pub open spec fn glyph_of(char_code_to_glyph_index_map: Seq<usize>, c: char) -> Option<usize> {
    if (c as u32) < MAPPED_CHAR_CODES {
        Some(char_code_to_glyph_index_map[c as u32 as int])
    } else {
        None
    }
}

/// The index of the glyph of a character in a font. The map has to hold the
/// code of a character of the basic multilingual plane; of another
/// character nothing is asked.
pub fn get_glyph_index(char_code_to_glyph_index_map: &Vec<usize>, c: char) -> (r: Option<usize>)
    requires
        (c as u32) < MAPPED_CHAR_CODES ==> (c as u32) < char_code_to_glyph_index_map@.len(),
    ensures
        r == glyph_of(char_code_to_glyph_index_map@, c),
{
    let code: u32 = c as u32;
    if code < 0x1_0000 {
        Some(char_code_to_glyph_index_map[code as usize])
    } else {
        None
    }
}

} // verus!
