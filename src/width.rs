//! Display width: the number of terminal columns a string occupies.

use vstd::prelude::*;

verus! {

/// The display width of a string in terminal columns, as measured by
/// `unicode-width`. Mostly each code point counts on its own (wide and
/// fullwidth glyphs two columns, combining and zero-width ones none, other
/// printable ones one), but some sequences are measured as a whole: emoji
/// sequences, some ligatures, and `"\r\n"`, which counts as one. So the
/// width of a string is not in general the sum over its characters.
pub uninterp spec fn text_width(s: Seq<char>) -> nat;

/// Relies on `unicode_width::UnicodeWidthStr::width` for `str`: the width
/// depends on the characters alone, and an empty string is zero columns wide.
#[verifier::external_body]
fn str_width(s: &str) -> (r: usize)
    ensures
        r as nat == text_width(s@),
        s@.len() == 0 ==> r == 0,
{
    unicode_width::UnicodeWidthStr::width(s)
}

/// The display width of `text` in terminal columns.
pub fn display_width(text: &str) -> (r: usize)
    ensures
        r as nat == text_width(text@),
        text@.len() == 0 ==> r == 0,
{
    str_width(text)
}

} // verus!
