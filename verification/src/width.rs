//! Display widths of text in a terminal, from the `unicode-width` crate.

use vstd::prelude::*;
use unicode_width::UnicodeWidthChar;
use unicode_width::UnicodeWidthStr;

verus! {

/// What `UnicodeWidthChar::width` returns for `c`: the columns it takes,
/// or `None` for a control character.
pub uninterp spec fn char_width(c: char) -> Option<usize>;

/// What `UnicodeWidthStr::width` returns for the text `s`: the columns it takes.
pub uninterp spec fn str_width(s: Seq<char>) -> usize;

/// Calls `UnicodeWidthChar::width`. Its source gives `None` exactly for
/// the control characters U+0000..U+001F and U+007F..U+009F, and width 1
/// for U+0020..U+007E; for other characters the width comes from Unicode
/// tables and is left to the name `char_width`.
#[verifier::external_body]
pub(crate) fn width_of_char(c: char) -> (r: Option<usize>)
    ensures
        r == char_width(c),
        r is None <==> ((c as u32) < 0x20 || (0x7f <= (c as u32) && (c as u32) < 0xa0)),
        (0x20 <= (c as u32) && (c as u32) < 0x7f) ==> r == Some(1usize),
{
    UnicodeWidthChar::width(c)
}

/// Calls `UnicodeWidthStr::width`. Its source sums over the characters with
/// rules for emoji and other sequences; that is left to the name
/// `str_width`, except that the empty text has width 0.
#[verifier::external_body]
pub(crate) fn width_of_str(s: &str) -> (r: usize)
    ensures
        r == str_width(s@),
        s@.len() == 0 ==> r == 0,
{
    UnicodeWidthStr::width(s)
}

} // verus!
