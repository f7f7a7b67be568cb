//! Classes of characters: what a query's terms are made of.

use vstd::prelude::*;

verus! {

/// Whether a character is an ASCII letter or digit.
pub open spec fn is_ascii_alphanumeric(c: char) -> bool {
    'a' <= c <= 'z' || 'A' <= c <= 'Z' || '0' <= c <= '9'
}

/// Whether a character is white space: Unicode's `White_Space` property, written out.
pub open spec fn white_space(c: char) -> bool {
    let u = c as u32;
    ||| 0x9 <= u <= 0xD
    ||| u == 0x20
    ||| u == 0x85
    ||| u == 0xA0
    ||| u == 0x1680
    ||| 0x2000 <= u <= 0x200A
    ||| u == 0x2028
    ||| u == 0x2029
    ||| u == 0x202F
    ||| u == 0x205F
    ||| u == 0x3000
}

/// `char::is_whitespace`. Claimed: it holds of the characters with Unicode's `White_Space`
/// property and of no others.
pub assume_specification[ char::is_whitespace ](c: char) -> (r: bool)
    ensures
        r == white_space(c),
;

/// What `char::is_alphanumeric` says of a character outside ASCII that is not white space:
/// whether Unicode counts it as alphabetic or as a number.
pub uninterp spec fn unicode_alphanumeric(c: char) -> bool;

/// Whether a character is alphanumeric.
pub open spec fn alphanumeric(c: char) -> bool {
    if (c as u32) < 128 {
        is_ascii_alphanumeric(c)
    } else {
        !white_space(c) && unicode_alphanumeric(c)
    }
}

/// `char::is_alphanumeric`. Claimed: within ASCII it holds of the letters and digits and of
/// nothing else. Outside ASCII it holds of no white space: it is documented as Unicode's
/// `Alphabetic` property or a number category, and white space there consists of separators and
/// one control character, which have neither. Of any other character it depends on the character
/// alone.
pub assume_specification[ char::is_alphanumeric ](c: char) -> (r: bool)
    ensures
        r == (if (c as u32) < 128 {
            is_ascii_alphanumeric(c)
        } else {
            !white_space(c) && unicode_alphanumeric(c)
        }),
;

/// What counts as part of a term: alphanumeric characters and `_`.
pub open spec fn term_char(c: char) -> bool {
    alphanumeric(c) || c == '_'
}

/// White space is no part of a term: it always separates terms.
pub proof fn law_white_space_separates_terms(c: char)
    requires
        white_space(c),
    ensures
        !term_char(c),
{
}

/// What counts as part of a term when a raw query is split.
///
/// The terms of a MATCH query, its quoting and the count of the user's own words all read this
/// one definition.
pub fn is_term_char(c: char) -> (r: bool)
    ensures
        r == term_char(c),
        (c as u32) < 0x80 ==> r == ('0' <= c <= '9' || 'A' <= c <= 'Z' || 'a' <= c <= 'z' || c
            == '_'),
{
    c.is_alphanumeric() || c == '_'
}

/// Scripts written without spaces between words, by ranges of code points.
pub open spec fn unsegmented_script(c: char) -> bool {
    let u = c as u32;
    // Hiragana and Katakana
    ||| 0x3040 <= u <= 0x30FF
    // CJK Unified Ideographs Extension A
    ||| 0x3400 <= u <= 0x4DBF
    // CJK Unified Ideographs
    ||| 0x4E00 <= u <= 0x9FFF
    // Hangul syllables
    ||| 0xAC00 <= u <= 0xD7AF
    // CJK Compatibility Ideographs
    ||| 0xF900 <= u <= 0xFAFF
    // Half-width katakana
    ||| 0xFF66 <= u <= 0xFF9D
    // CJK Unified Ideographs Extension B
    ||| 0x20000 <= u <= 0x2A6DF
    // CJK Unified Ideographs Extensions C-F
    ||| 0x2A700 <= u <= 0x2EBEF
}

/// Scripts written without spaces between words.
///
/// The index tokenizer makes one token of a whole phrase in such a script, so a word inside the
/// phrase cannot be reached by MATCH. Covered: CJK Unified Ideographs and Extensions A-F,
/// compatibility ideographs, full-width and half-width kana, precomposed Hangul syllables.
/// Hangul compatibility Jamo, Thai, Lao and Khmer are not.
pub fn is_unsegmented_script(c: char) -> (r: bool)
    ensures
        r == unsegmented_script(c),
        r == ('\u{3040}' <= c <= '\u{30FF}' || '\u{3400}' <= c <= '\u{4DBF}' || '\u{4E00}' <= c
            <= '\u{9FFF}' || '\u{AC00}' <= c <= '\u{D7AF}' || '\u{F900}' <= c <= '\u{FAFF}'
            || '\u{FF66}' <= c <= '\u{FF9D}' || '\u{20000}' <= c <= '\u{2A6DF}' || '\u{2A700}'
            <= c <= '\u{2EBEF}'),
{
    let u: u32 = c as u32;
    (0x3040 <= u && u <= 0x30FF) || (0x3400 <= u && u <= 0x4DBF) || (0x4E00 <= u && u <= 0x9FFF)
        || (0xAC00 <= u && u <= 0xD7AF) || (0xF900 <= u && u <= 0xFAFF) || (0xFF66 <= u && u
        <= 0xFF9D) || (0x20000 <= u && u <= 0x2A6DF) || (0x2A700 <= u && u <= 0x2EBEF)
}

/// A class of characters by which a text is cut into runs.
#[derive(Clone, Copy)]
pub enum CharClass {
    /// The characters of terms.
    Term,
    /// The characters of scripts without spaces between words.
    UnsegmentedScript,
    /// Everything that is not white space.
    NonSpace,
}

impl CharClass {
    /// The class as a predicate.
    pub open spec fn members(self) -> spec_fn(char) -> bool {
        match self {
            CharClass::Term => |c: char| term_char(c),
            CharClass::UnsegmentedScript => |c: char| unsegmented_script(c),
            CharClass::NonSpace => |c: char| !white_space(c),
        }
    }

    /// Whether a character is in the class.
    pub fn has(self, c: char) -> (r: bool)
        ensures
            r == (self.members())(c),
    {
        match self {
            CharClass::Term => is_term_char(c),
            CharClass::UnsegmentedScript => is_unsegmented_script(c),
            CharClass::NonSpace => !c.is_whitespace(),
        }
    }
}

} // verus!
