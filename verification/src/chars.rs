//! Character classes used by the segmentation and extraction rules.

use vstd::prelude::*;

verus! {

/// An ASCII decimal digit, the only characters a process identifier holds.
pub open spec fn is_digit_char(c: char) -> bool {
    '0' <= c && c <= '9'
}

/// Whitespace, the Unicode `White_Space` set: what is skipped after a
/// field label and trimmed from the ends of a captured field.
pub open spec fn is_space_char(c: char) -> bool {
    ||| c == ' '
    ||| ('\u{9}' <= c && c <= '\u{d}')
    ||| c == '\u{85}'
    ||| c == '\u{a0}'
    ||| c == '\u{1680}'
    ||| ('\u{2000}' <= c && c <= '\u{200a}')
    ||| c == '\u{2028}'
    ||| c == '\u{2029}'
    ||| c == '\u{202f}'
    ||| c == '\u{205f}'
    ||| c == '\u{3000}'
}

/// The lower-case image of a character: ASCII upper-case letters are mapped
/// to their lower-case counterparts, every other character stays itself.
/// Case folding is deliberately ASCII-only, a documented deviation: every
/// phrase and label the rules match is ASCII, and full Unicode lowercasing
/// does not fit a character-for-character model (some mappings change the
/// length of the text).
pub open spec fn lower_char(c: char) -> char {
    if 'A' <= c && c <= 'Z' {
        (((c as u32) + 32) as u8) as char
    } else {
        c
    }
}

/// Decides digit-hood of a character.
pub fn digit_char(c: char) -> (r: bool)
    ensures
        r == is_digit_char(c),
{
    '0' <= c && c <= '9'
}

/// Decides whether a character counts as whitespace.
pub fn space_char(c: char) -> (r: bool)
    ensures
        r == is_space_char(c),
{
    c == ' ' || ('\u{9}' <= c && c <= '\u{d}') || c == '\u{85}' || c == '\u{a0}' || c == '\u{1680}'
        || ('\u{2000}' <= c && c <= '\u{200a}') || c == '\u{2028}' || c == '\u{2029}'
        || c == '\u{202f}' || c == '\u{205f}' || c == '\u{3000}'
}

/// Maps a character to its lower-case image.
pub fn to_lower(c: char) -> (r: char)
    ensures
        r == lower_char(c),
{
    if 'A' <= c && c <= 'Z' {
        (((c as u32) + 32) as u8) as char
    } else {
        c
    }
}

} // verus!
